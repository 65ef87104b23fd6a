use holepunch::addr::Ipv4;
use holepunch::addr::PeerAddr;
use holepunch::resolver::build_wait_url;
use holepunch::resolver::default_retry_policy;
use holepunch::resolver::resolver_start;
use holepunch::resolver::resolver_step;
use holepunch::resolver::trim_ascii;
use holepunch::resolver::HttpEvent;
use holepunch::resolver::ResolveError;
use holepunch::resolver::RetryPolicy;
use holepunch::resolver::StepOutcome;

/// One scripted answer of a stub rendezvous server.
#[derive(Clone)]
enum StubReply {
    Transport,
    Status(u16, Vec<u8>),
}

/// Runs a full resolution against a scripted server; returns the outcome
/// and the delays the resolver asked to sleep.
fn resolve_against(policy: &RetryPolicy, replies: &[StubReply]) -> (Result<PeerAddr, ResolveError>, Vec<u64>) {
    let mut state = resolver_start(policy);
    let mut delays = Vec::new();
    let mut i = 0;
    loop {
        let event = match &replies[i] {
            StubReply::Transport => HttpEvent::TransportError,
            StubReply::Status(status, body) => {
                HttpEvent::Response { status: *status, body: body.clone() }
            }
        };
        i += 1;
        match resolver_step(policy, &state, &event) {
            StepOutcome::Retry { delay_ms, next } => {
                delays.push(delay_ms);
                state = next;
            }
            StepOutcome::Resolved { addr } => return (Ok(addr), delays),
            StepOutcome::Failed { err } => return (Err(err), delays),
        }
    }
}

fn ok_body() -> Vec<u8> {
    b"9.8.7.6:1000".to_vec()
}

fn ok_addr() -> PeerAddr {
    PeerAddr { ip: Ipv4 { a: 9, b: 8, c: 7, d: 6 }, port: 1000 }
}

#[test]
fn succeeds_on_attempt_after_two_not_founds() {
    let policy = default_retry_policy();
    let replies = vec![
        StubReply::Status(404, Vec::new()),
        StubReply::Status(404, Vec::new()),
        StubReply::Status(200, ok_body()),
    ];
    let (outcome, delays) = resolve_against(&policy, &replies);
    assert_eq!(outcome, Ok(ok_addr()));
    assert_eq!(delays, vec![600, 600]);
}

#[test]
fn succeeds_on_last_allowed_attempt() {
    let policy = default_retry_policy();
    let mut replies = vec![StubReply::Status(404, Vec::new()); 4];
    replies.push(StubReply::Status(200, ok_body()));
    let (outcome, delays) = resolve_against(&policy, &replies);
    assert_eq!(outcome, Ok(ok_addr()));
    assert_eq!(delays, vec![600, 600, 600, 600]);
}

#[test]
fn fails_when_peer_never_registers() {
    let policy = default_retry_policy();
    let replies = vec![StubReply::Status(404, Vec::new()); 5];
    let (outcome, delays) = resolve_against(&policy, &replies);
    assert_eq!(outcome, Err(ResolveError::PeerNotFound));
    assert_eq!(delays.len(), 4);
}

#[test]
fn malformed_body_fails_without_further_retries() {
    let policy = default_retry_policy();
    let replies = vec![
        StubReply::Status(404, Vec::new()),
        StubReply::Status(200, b"nonsense".to_vec()),
        StubReply::Status(200, ok_body()),
    ];
    let (outcome, delays) = resolve_against(&policy, &replies);
    assert_eq!(outcome, Err(ResolveError::MalformedBody));
    assert_eq!(delays.len(), 1);
}

#[test]
fn unexpected_status_fails_immediately() {
    let policy = default_retry_policy();
    let replies = vec![StubReply::Status(500, Vec::new())];
    let (outcome, delays) = resolve_against(&policy, &replies);
    assert_eq!(outcome, Err(ResolveError::UnexpectedStatus { status: 500 }));
    assert!(delays.is_empty());
}

#[test]
fn transport_errors_exhaust_with_doubling_delays() {
    let policy = default_retry_policy();
    let replies = vec![StubReply::Transport; 5];
    let (outcome, delays) = resolve_against(&policy, &replies);
    assert_eq!(outcome, Err(ResolveError::Network { attempts: 5 }));
    assert_eq!(delays, vec![400, 800, 1600, 3200]);
}

#[test]
fn transport_delays_are_nondecreasing_and_capped() {
    let policy = RetryPolicy {
        max_attempts: 8,
        initial_backoff_ms: 400,
        backoff_cap_ms: 5000,
        not_found_delay_ms: 600,
    };
    let replies = vec![StubReply::Transport; 8];
    let (outcome, delays) = resolve_against(&policy, &replies);
    assert_eq!(outcome, Err(ResolveError::Network { attempts: 8 }));
    assert_eq!(delays, vec![400, 800, 1600, 3200, 5000, 5000, 5000]);
    for w in delays.windows(2) {
        assert!(w[0] <= w[1]);
    }
    for d in &delays {
        assert!(*d <= 5000);
    }
}

#[test]
fn not_found_resets_transport_backoff() {
    let policy = default_retry_policy();
    let replies = vec![
        StubReply::Transport,
        StubReply::Transport,
        StubReply::Status(404, Vec::new()),
        StubReply::Transport,
        StubReply::Status(200, ok_body()),
    ];
    let (outcome, delays) = resolve_against(&policy, &replies);
    assert_eq!(outcome, Ok(ok_addr()));
    assert_eq!(delays, vec![400, 800, 600, 400]);
}

#[test]
fn resolving_twice_gives_the_same_address() {
    let policy = default_retry_policy();
    let replies = vec![
        StubReply::Status(404, Vec::new()),
        StubReply::Status(200, ok_body()),
    ];
    let (first, _) = resolve_against(&policy, &replies);
    let (second, _) = resolve_against(&policy, &replies);
    assert_eq!(first, Ok(ok_addr()));
    assert_eq!(first, second);
}

#[test]
fn response_body_is_trimmed_before_parsing() {
    let policy = default_retry_policy();
    let replies = vec![StubReply::Status(200, b" \t9.8.7.6:1000\r\n".to_vec())];
    let (outcome, delays) = resolve_against(&policy, &replies);
    assert_eq!(outcome, Ok(ok_addr()));
    assert!(delays.is_empty());
}

#[test]
fn trim_strips_ascii_whitespace() {
    assert_eq!(trim_ascii(&b"  a b \r\n".to_vec()), b"a b".to_vec());
    assert_eq!(trim_ascii(&b"\t\n ".to_vec()), Vec::<u8>::new());
    assert_eq!(trim_ascii(&Vec::new()), Vec::<u8>::new());
    assert_eq!(trim_ascii(&b"x".to_vec()), b"x".to_vec());
}

#[test]
fn wait_url_matches_protocol() {
    let server = Ipv4 { a: 45, b: 151, c: 30, d: 139 };
    assert_eq!(
        build_wait_url(&server, "other", 10),
        "http://45.151.30.139:8080/api/wait/other?timeout=10"
    );
}
