//! The two ends of a transmission, and the ends that are used when the
//! caller names none.

use vstd::prelude::*;

verus! {

/// The port that Wake-on-LAN datagrams are sent to by convention.
pub const WAKE_ON_LAN_PORT: u16 = 9;

/// An IPv4 address and a UDP port: where a datagram is sent from, or to.
#[derive(Debug, Clone, Copy, PartialEq, Eq)]
pub struct SocketEndpoint {
    /// The address, most significant byte first.
    pub ip: [u8; 4],
    /// The port; 0 as a source lets the operating system pick one.
    pub port: u16,
}

impl SocketEndpoint {
    /// Where a magic packet goes when the caller names no destination: the
    /// broadcast address `255.255.255.255`, port 9.
    pub fn default_destination() -> (endpoint: SocketEndpoint)
        ensures
            endpoint.ip@ == seq![255u8, 255u8, 255u8, 255u8],
            endpoint.port == 9,
    {
        SocketEndpoint { ip: [255, 255, 255, 255], port: WAKE_ON_LAN_PORT }
    }

    /// Where a magic packet is sent from when the caller names no source:
    /// `0.0.0.0`, port 0, which leaves interface and port to the operating
    /// system.
    pub fn default_source() -> (endpoint: SocketEndpoint)
        ensures
            endpoint.ip@ == seq![0u8, 0u8, 0u8, 0u8],
            endpoint.port == 0,
    {
        SocketEndpoint { ip: [0, 0, 0, 0], port: 0 }
    }
}

} // verus!
