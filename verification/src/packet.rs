//! The magic packet and the layout of its payload.

use crate::address::{parse_hardware_address, ParseError};
use crate::grammar::parsed_address;
use vstd::prelude::*;
use vstd::std_specs::convert::TryFromSpecImpl;

verus! {

/// The six bytes `0xFF` that a payload begins with.
pub open spec fn sync_marker() -> Seq<u8> {
    Seq::new(6, |i: int| 0xFFu8)
}

/// The payload that wakes the interface with hardware address `mac`: six
/// bytes `0xFF`, then `mac` sixteen times over.
pub open spec fn magic_payload(mac: Seq<u8>) -> Seq<u8> {
    Seq::new(102, |i: int| if i < 6 { 0xFFu8 } else { mac[(i - 6) % 6] })
}

/// The six bytes of `payload` where its copy number `index` of the hardware
/// address stands, counting from 0.
pub open spec fn repetition(payload: Seq<u8>, index: int) -> Seq<u8> {
    payload.subrange(6 + 6 * index, 12 + 6 * index)
}

/// `payload` is laid out as a magic packet for `mac`: 102 bytes, of which the
/// first six are `0xFF` and each of the sixteen groups of six that follow is
/// `mac`.
pub open spec fn has_magic_layout(payload: Seq<u8>, mac: Seq<u8>) -> bool {
    &&& payload.len() == 102
    &&& payload.subrange(0, 6) == sync_marker()
    &&& forall|index: int| 0 <= index < 16 ==> #[trigger] repetition(payload, index) == mac
}

/// The payload for a hardware address of six bytes has the layout of a magic
/// packet for that address.
pub proof fn lemma_magic_payload_layout(mac: Seq<u8>)
    requires
        mac.len() == 6,
    ensures
        has_magic_layout(magic_payload(mac), mac),
{
    let payload = magic_payload(mac);
    assert(payload.subrange(0, 6) =~= sync_marker());
    assert forall|index: int| 0 <= index < 16 implies #[trigger] repetition(payload, index)
        == mac by {
        assert(repetition(payload, index) =~= mac);
    }
}

/// The layout leaves no choice: only one payload is laid out as a magic
/// packet for a given hardware address.
pub proof fn lemma_magic_layout_is_unique(payload: Seq<u8>, mac: Seq<u8>)
    requires
        mac.len() == 6,
        has_magic_layout(payload, mac),
    ensures
        payload == magic_payload(mac),
{
    assert forall|i: int| 0 <= i < 102 implies payload[i] == magic_payload(mac)[i] by {
        if i < 6 {
            assert(payload[i] == payload.subrange(0, 6)[i]);
        } else {
            let index = (i - 6) / 6;
            assert(payload[i] == repetition(payload, index)[(i - 6) % 6]);
        }
    }
}

/// A Wake-on-LAN magic packet.
pub struct MagicPacket {
    magic_bytes: [u8; 102],
}

impl View for MagicPacket {
    type V = Seq<u8>;

    /// The payload, byte by byte.
    closed spec fn view(&self) -> Seq<u8> {
        self.magic_bytes@
    }
}

impl MagicPacket {
    /// The hardware address that the packet is meant for.
    pub closed spec fn hardware_address(&self) -> Seq<u8> {
        self.magic_bytes@.subrange(6, 12)
    }

    /// Every packet holds the payload for its hardware address.
    #[verifier::type_invariant]
    closed spec fn well_formed(&self) -> bool {
        self.magic_bytes@ == magic_payload(self.hardware_address())
    }

    /// The magic packet for the hardware address `mac`, as a value of
    /// specifications: what `new` returns for an array that holds `mac`.
    pub closed spec fn for_address(mac: Seq<u8>) -> MagicPacket {
        MagicPacket { magic_bytes: choose|bytes: [u8; 102]| bytes@ == magic_payload(mac) }
    }

    /// Creates the magic packet for the interface with hardware address
    /// `mac_address`. Nothing is sent.
    pub fn new(mac_address: &[u8; 6]) -> (packet: MagicPacket)
        ensures
            has_magic_layout(packet@, mac_address@),
            packet@ == magic_payload(mac_address@),
            packet.hardware_address() == mac_address@,
            packet == MagicPacket::for_address(mac_address@),
    {
        let mut magic_bytes: [u8; 102] = [0xFF; 102];
        let mut i: usize = 6;
        while i < 102
            invariant
                6 <= i <= 102,
                forall|j: int| 0 <= j < i ==> magic_bytes@[j] == magic_payload(mac_address@)[j],
                forall|j: int| i <= j < 102 ==> magic_bytes@[j] == 0xFFu8,
            decreases 102 - i,
        {
            magic_bytes[i] = mac_address[(i - 6) % 6];
            i += 1;
        }
        proof {
            assert(magic_bytes@ =~= magic_payload(mac_address@));
            assert(magic_bytes@.subrange(6, 12) =~= mac_address@);
            assert(magic_bytes =~= MagicPacket::for_address(mac_address@).magic_bytes);
            lemma_magic_payload_layout(mac_address@);
        }
        MagicPacket { magic_bytes }
    }

    /// The packet's payload: six bytes `0xFF` and sixteen repetitions of the
    /// target's hardware address. These are the bytes to send as one UDP
    /// datagram, over a socket of the caller's own if need be.
    pub fn magic_bytes(&self) -> (bytes: &[u8; 102])
        ensures
            bytes@ == self@,
            self.hardware_address().len() == 6,
            bytes@ == magic_payload(self.hardware_address()),
            has_magic_layout(bytes@, self.hardware_address()),
    {
        proof {
            use_type_invariant(self);
            lemma_magic_payload_layout(self.hardware_address());
        }
        &self.magic_bytes
    }
}

/// A packet's payload does not change: two arrays that both hold what
/// `magic_bytes` returns for one packet are the same array.
pub proof fn lemma_magic_bytes_is_stable(packet: MagicPacket, first: [u8; 102], second: [u8; 102])
    requires
        first@ == packet@,
        second@ == packet@,
    ensures
        first == second,
{
}

/// A payload names its hardware address: two addresses of six bytes have the
/// same payload exactly when they are the same address.
pub proof fn lemma_magic_payload_is_injective(first: Seq<u8>, second: Seq<u8>)
    requires
        first.len() == 6,
        second.len() == 6,
    ensures
        magic_payload(first) == magic_payload(second) <==> first == second,
{
    if magic_payload(first) == magic_payload(second) {
        assert(magic_payload(first).subrange(6, 12) =~= first);
        assert(magic_payload(second).subrange(6, 12) =~= second);
    }
}

impl<'a> TryFrom<&'a str> for MagicPacket {
    type Error = ParseError;

    /// Creates the magic packet for the hardware address that `mac_string`
    /// denotes, in the form `00:11:22:33:44:AA`.
    fn try_from(mac_string: &'a str) -> (result: Result<MagicPacket, ParseError>)
        ensures
            match result {
                Ok(packet) => {
                    &&& parsed_address(mac_string@) == Some(packet.hardware_address())
                    &&& packet@ == magic_payload(packet.hardware_address())
                },
                Err(_) => parsed_address(mac_string@) is None,
            },
    {
        match parse_hardware_address(mac_string) {
            Ok(mac_address) => Ok(MagicPacket::new(&mac_address)),
            Err(error) => Err(error),
        }
    }
}

impl<'a> TryFromSpecImpl<&'a str> for MagicPacket {
    open spec fn obeys_try_from_spec() -> bool {
        true
    }

    open spec fn try_from_spec(mac_string: &'a str) -> Result<Self, Self::Error> {
        match parsed_address(mac_string@) {
            Some(mac) => Ok(MagicPacket::for_address(mac)),
            None => Err(ParseError),
        }
    }
}

} // verus!
