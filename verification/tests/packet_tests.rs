use holepunch::packet::decode_registration;
use holepunch::packet::encode_registration;
use holepunch::packet::REGISTRATION_INTERVAL_MS;
use holepunch::packet::REGISTRATION_SENDS;
use holepunch::packet::RENDEZVOUS_UDP_PORT;

#[test]
fn registration_packet_round_trips() {
    let name = b"alice".to_vec();
    let packet = encode_registration(&name);
    assert_eq!(packet, vec![0x00, b'a', b'l', b'i', b'c', b'e', 0xFF]);
    let back = decode_registration(&packet).expect("well-formed packet");
    assert_eq!(back, name);
}

#[test]
fn empty_name_round_trips() {
    let name = Vec::new();
    let packet = encode_registration(&name);
    assert_eq!(packet, vec![0x00, 0xFF]);
    let back = decode_registration(&packet).expect("well-formed packet");
    assert_eq!(back, name);
}

#[test]
fn arbitrary_well_formed_packet_decodes() {
    let packet = vec![0x00, 0x01, 0xFF, 0x7F, 0xFF];
    let name = decode_registration(&packet).expect("well-formed packet");
    assert_eq!(name, vec![0x01, 0xFF, 0x7F]);
    assert_eq!(encode_registration(&name), packet);
}

#[test]
fn malformed_packets_are_rejected() {
    assert!(decode_registration(&Vec::new()).is_none());
    assert!(decode_registration(&vec![0x00]).is_none());
    assert!(decode_registration(&vec![0xFF]).is_none());
    assert!(decode_registration(&vec![0x01, b'x', 0xFF]).is_none());
    assert!(decode_registration(&vec![0x00, b'x', 0xFE]).is_none());
}

#[test]
fn registration_policy_constants() {
    assert_eq!(REGISTRATION_SENDS, 3);
    assert_eq!(REGISTRATION_INTERVAL_MS, 200);
    assert_eq!(RENDEZVOUS_UDP_PORT, 4200);
}
