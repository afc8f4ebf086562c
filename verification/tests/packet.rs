use wake_on_lan::endpoint::{SocketEndpoint, WAKE_ON_LAN_PORT};
use wake_on_lan::MagicPacket;

#[test]
fn payload_has_the_sync_marker_and_sixteen_copies() {
    let addresses: [[u8; 6]; 4] = [
        [0x0F, 0x1E, 0x2D, 0x3C, 0x4B, 0x5A],
        [0x00, 0x00, 0x00, 0x00, 0x00, 0x00],
        [0xFF, 0xFF, 0xFF, 0xFF, 0xFF, 0xFF],
        [0x01, 0x23, 0x45, 0x67, 0x89, 0xAB],
    ];
    for mac in addresses.iter() {
        let packet = MagicPacket::new(mac);
        let bytes = packet.magic_bytes();
        assert_eq!(bytes.len(), 102);
        assert_eq!(&bytes[0..6], &[0xFF; 6]);
        for i in 0..16 {
            assert_eq!(&bytes[6 + 6 * i..12 + 6 * i], mac);
        }
    }
}

#[test]
fn payload_in_hexadecimal() {
    let packet = MagicPacket::new(&[0x0F, 0x1E, 0x2D, 0x3C, 0x4B, 0x5A]);
    let mut hex = String::new();
    for byte in packet.magic_bytes().iter() {
        hex.push_str(&format!("{:02X}", byte));
    }
    let mut expected = String::from("FFFFFFFFFFFF");
    for _ in 0..16 {
        expected.push_str("0F1E2D3C4B5A");
    }
    assert_eq!(hex.len(), 204);
    assert_eq!(hex, expected);
}

#[test]
fn payload_bytes_at_the_seams() {
    let packet = MagicPacket::new(&[1, 2, 3, 4, 5, 6]);
    let bytes = packet.magic_bytes();
    assert_eq!(bytes[5], 0xFF);
    assert_eq!(bytes[6], 1);
    assert_eq!(bytes[11], 6);
    assert_eq!(bytes[12], 1);
    assert_eq!(bytes[96], 1);
    assert_eq!(bytes[101], 6);
}

#[test]
fn payload_is_the_same_at_every_read() {
    let packet = MagicPacket::new(&[0x0F, 0x1E, 0x2D, 0x3C, 0x4B, 0x5A]);
    let first = *packet.magic_bytes();
    let second = *packet.magic_bytes();
    assert_eq!(first, second);
    assert_eq!(packet.magic_bytes(), packet.magic_bytes());
}

#[test]
fn default_ends_of_a_transmission() {
    let destination = SocketEndpoint::default_destination();
    assert_eq!(destination.ip, [255, 255, 255, 255]);
    assert_eq!(destination.port, 9);
    assert_eq!(WAKE_ON_LAN_PORT, 9);
    let source = SocketEndpoint::default_source();
    assert_eq!(source, SocketEndpoint { ip: [0, 0, 0, 0], port: 0 });
}

#[test]
fn payloads_differ_where_the_addresses_do() {
    let first = MagicPacket::new(&[1, 2, 3, 4, 5, 6]);
    let second = MagicPacket::new(&[1, 2, 3, 4, 5, 7]);
    let again = MagicPacket::new(&[1, 2, 3, 4, 5, 6]);
    assert_ne!(first.magic_bytes(), second.magic_bytes());
    assert_eq!(first.magic_bytes(), again.magic_bytes());
}
