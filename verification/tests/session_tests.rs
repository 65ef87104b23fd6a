use holepunch::addr::format_peer_addr;
use holepunch::addr::Ipv4;
use holepunch::addr::PeerAddr;
use holepunch::packet::decode_registration;
use holepunch::packet::encode_registration;
use holepunch::resolver::default_retry_policy;
use holepunch::resolver::resolver_start;
use holepunch::resolver::resolver_step;
use holepunch::resolver::HttpEvent;
use holepunch::resolver::StepOutcome;
use holepunch::session::handle_datagram;
use holepunch::session::handle_input_line;
use holepunch::session::punch_payload;
use holepunch::session::PUNCH_INTERVAL_MS;
use holepunch::session::PUNCH_PACKET_COUNT;

fn addr(a: u8, b: u8, c: u8, d: u8, port: u16) -> PeerAddr {
    PeerAddr { ip: Ipv4 { a, b, c, d }, port }
}

#[test]
fn punch_marker_is_the_word_punch() {
    assert_eq!(punch_payload(), b"punch".to_vec());
    assert_eq!(PUNCH_PACKET_COUNT, 100);
    assert_eq!(PUNCH_INTERVAL_MS, 25);
}

#[test]
fn blank_input_lines_are_never_sent() {
    assert_eq!(handle_input_line(""), None);
    assert_eq!(handle_input_line("\n"), None);
    assert_eq!(handle_input_line("   \t \r\n"), None);
}

#[test]
fn input_lines_are_trimmed_and_sent() {
    assert_eq!(handle_input_line("hello\n"), Some("hello".to_string()));
    assert_eq!(handle_input_line("  hi there \r\n"), Some("hi there".to_string()));
    assert_eq!(handle_input_line("x"), Some("x".to_string()));
}

#[test]
fn empty_datagrams_are_never_printed() {
    assert_eq!(handle_datagram(&Vec::new(), &addr(1, 2, 3, 4, 5)), None);
}

#[test]
fn datagrams_print_tagged_with_sender() {
    let line = handle_datagram(&b"hello".to_vec(), &addr(1, 2, 3, 4, 5678)).unwrap();
    assert_eq!(line, "[1.2.3.4:5678] hello");
}

#[test]
fn invalid_utf8_is_shown_lossily_not_fatal() {
    let payload = vec![0xFF, 0xFE, b'o', b'k'];
    let line = handle_datagram(&payload, &addr(9, 9, 9, 9, 1)).unwrap();
    let expected = format!("[9.9.9.9:1] {}", String::from_utf8_lossy(&payload));
    assert_eq!(line, expected);
}

/// Two in-process peers standing in for real ones: `alice` registers with a
/// stub rendezvous, `bob` resolves her through it after two synthetic
/// not-found answers, punches, and sends a greeting that `alice`'s receive
/// path prints tagged with `bob`'s address.
#[test]
fn two_peers_meet_through_stub_rendezvous() {
    // The NAT-translated addresses the stub rendezvous observes.
    let alice_addr = addr(10, 0, 0, 1, 4000);
    let bob_addr = addr(10, 0, 0, 2, 4001);

    // Alice registers: the stub decodes her packet and records her name.
    let packet = encode_registration(&b"alice".to_vec());
    let registered = decode_registration(&packet).expect("stub accepts the packet");
    assert_eq!(registered, b"alice".to_vec());
    let stub_entry = (registered, format_peer_addr(&alice_addr).into_bytes());

    // Bob resolves "alice": the stub answers 404 twice, then her address.
    let policy = default_retry_policy();
    let mut state = resolver_start(&policy);
    let mut attempts = 0;
    let resolved = loop {
        attempts += 1;
        let event = if attempts <= 2 {
            HttpEvent::Response { status: 404, body: Vec::new() }
        } else {
            assert_eq!(stub_entry.0, b"alice".to_vec());
            HttpEvent::Response { status: 200, body: stub_entry.1.clone() }
        };
        match resolver_step(&policy, &state, &event) {
            StepOutcome::Retry { delay_ms: _, next } => state = next,
            StepOutcome::Resolved { addr } => break addr,
            StepOutcome::Failed { err } => panic!("resolution failed: {:?}", err),
        }
    };
    assert_eq!(attempts, 3);
    assert_eq!(resolved, alice_addr);

    // Bob punches; the markers reach Alice and are shown, not fatal.
    let mut alice_inbox: Vec<Vec<u8>> = Vec::new();
    alice_inbox.push(punch_payload());

    // Bob types "hello"; the session forwards the trimmed line.
    let message = handle_input_line("hello\n").expect("non-blank line is sent");
    alice_inbox.push(message.into_bytes());

    // Alice's receive path prints each datagram tagged with Bob's address.
    let mut printed = Vec::new();
    for payload in &alice_inbox {
        if let Some(line) = handle_datagram(payload, &bob_addr) {
            printed.push(line);
        }
    }
    assert_eq!(printed.len(), 2);
    assert!(printed[1].starts_with("[10.0.0.2:4001]"));
    assert!(printed[1].contains("hello"));
    assert_eq!(printed[1], "[10.0.0.2:4001] hello");
}
