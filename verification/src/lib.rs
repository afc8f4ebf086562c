//! Wake-on-LAN magic packets: building the 102-byte payload from a hardware
//! address, and reading a hardware address from its colon-separated text.
//!
//! ```
//! use wake_on_lan::MagicPacket;
//!
//! // The payload for the device with this hardware address.
//! let packet = MagicPacket::new(&[0x0F, 0x1E, 0x2D, 0x3C, 0x4B, 0x5A]);
//! assert_eq!(packet.magic_bytes().len(), 102);
//!
//! // The same packet, from the address as text.
//! let parsed = MagicPacket::try_from("0F:1E:2D:3C:4B:5A").unwrap();
//! assert_eq!(parsed.magic_bytes(), packet.magic_bytes());
//! ```
//!
//! Nothing here touches the network. A packet hands out its payload through
//! `magic_bytes`, and `endpoint` names where such a payload is sent from and
//! to when the caller has no wish of their own.

pub mod address;
pub mod endpoint;
pub mod grammar;
pub mod grammar_laws;
pub mod packet;

pub use address::{parse_hardware_address, parse_hex_byte, ParseError};
pub use endpoint::SocketEndpoint;
pub use packet::MagicPacket;
