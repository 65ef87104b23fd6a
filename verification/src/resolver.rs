//! Peer resolution retry state machine.
//!
//! Resolving a peer asks the rendezvous server's HTTP wait endpoint for the
//! peer's address, a bounded number of times. The retry policy has two
//! tiers: a transport error means the server is unreachable, so the next
//! delay doubles up to a cap; a 404 means the peer simply has not registered
//! yet, so the resolver polls at a fixed delay and resets the transport
//! backoff. A 200 body is trimmed and parsed as an address; a malformed
//! body or any other status is fatal at once.
//!
//! The machine here decides; the surrounding binary performs the HTTP call
//! and the sleeps, and feeds each outcome back in as an event.

use vstd::prelude::*;

use crate::addr::PeerAddr;
use crate::addr::copy_range;
use crate::addr::format_ipv4;
use crate::addr::ipv4_chars;
use crate::addr::Ipv4;
use crate::addr::dec_chars;
use crate::addr::push_decimal;
use crate::addr::parse_peer_addr;
use crate::addr::spec_parse_addr;
use vstd::string::StringExecFns;

verus! {

/// How resolution retries: attempt bound, transport backoff start and cap,
/// and the fixed delay after a 404.
#[derive(Clone, Copy, PartialEq, Eq, Structural, Debug)]
pub struct RetryPolicy {
    pub max_attempts: u32,
    pub initial_backoff_ms: u64,
    pub backoff_cap_ms: u64,
    pub not_found_delay_ms: u64,
}

impl RetryPolicy {
    /// A usable policy: at least one attempt, the starting backoff within
    /// the cap, and the cap small enough that doubling cannot overflow.
    pub open spec fn wf(self) -> bool {
        &&& self.max_attempts >= 1
        &&& self.initial_backoff_ms <= self.backoff_cap_ms
        &&& self.backoff_cap_ms <= 0x7fff_ffff_ffff_ffff
    }
}

/// Where a resolution stands: which attempt comes next, and the delay a
/// transport error would cost before the attempt after it.
#[derive(Clone, Copy, PartialEq, Eq, Structural, Debug)]
pub struct ResolverState {
    pub attempt: u32,
    pub backoff_ms: u64,
}

impl ResolverState {
    /// A state the policy can reach: attempt within bounds, backoff within
    /// the cap.
    pub open spec fn wf(self, p: RetryPolicy) -> bool {
        &&& 1 <= self.attempt <= p.max_attempts
        &&& self.backoff_ms <= p.backoff_cap_ms
    }
}

/// What one wait request came back with.
pub enum HttpEvent {
    /// The server could not be reached at all.
    TransportError,
    /// The server answered with this status and body.
    Response { status: u16, body: Vec<u8> },
}

/// The mathematical value of an [`HttpEvent`].
pub enum HttpEventView {
    TransportError,
    Response { status: u16, body: Seq<u8> },
}

impl View for HttpEvent {
    type V = HttpEventView;

    open spec fn view(&self) -> HttpEventView {
        match self {
            HttpEvent::TransportError => HttpEventView::TransportError,
            HttpEvent::Response { status, body } => HttpEventView::Response {
                status: *status,
                body: body@,
            },
        }
    }
}

/// Why a resolution ended without an address.
#[derive(Clone, Copy, PartialEq, Eq, Structural, Debug)]
pub enum ResolveError {
    /// The server stayed unreachable through the last attempt.
    Network { attempts: u32 },
    /// The peer was still unknown to the server on the last attempt.
    PeerNotFound,
    /// A 200 body did not parse as an address; not retried.
    MalformedBody,
    /// A status other than 200 or 404; not retried.
    UnexpectedStatus { status: u16 },
}

/// What the machine decides after one event.
#[derive(Clone, Copy, PartialEq, Eq, Structural, Debug)]
pub enum StepOutcome {
    /// Sleep `delay_ms`, then try again from `next`.
    Retry { delay_ms: u64, next: ResolverState },
    /// The peer's address is known.
    Resolved { addr: PeerAddr },
    /// Resolution failed for good.
    Failed { err: ResolveError },
}

// ---------------------------------------------------------------------------
// Trimming the response body.
// ---------------------------------------------------------------------------

/// ASCII whitespace: space, tab, line feed, carriage return.
pub open spec fn is_ws_byte(b: u8) -> bool {
    b == 0x20 || b == 0x09 || b == 0x0A || b == 0x0D
}

/// `s` without leading ASCII whitespace.
pub open spec fn trim_front_bytes(s: Seq<u8>) -> Seq<u8>
    decreases s.len(),
{
    if s.len() > 0 && is_ws_byte(s[0]) {
        trim_front_bytes(s.skip(1))
    } else {
        s
    }
}

/// `s` without trailing ASCII whitespace.
pub open spec fn trim_back_bytes(s: Seq<u8>) -> Seq<u8>
    decreases s.len(),
{
    if s.len() > 0 && is_ws_byte(s.last()) {
        trim_back_bytes(s.drop_last())
    } else {
        s
    }
}

/// `s` without leading or trailing ASCII whitespace.
pub open spec fn spec_trim_bytes(s: Seq<u8>) -> Seq<u8> {
    trim_back_bytes(trim_front_bytes(s))
}

proof fn lemma_trim_front_at(s: Seq<u8>, lo: int)
    requires
        0 <= lo <= s.len(),
        forall|j: int| 0 <= j < lo ==> is_ws_byte(s[j]),
        lo < s.len() ==> !is_ws_byte(s[lo]),
    ensures
        trim_front_bytes(s) == s.subrange(lo, s.len() as int),
    decreases lo,
{
    if lo == 0 {
        assert(s.subrange(0, s.len() as int) =~= s);
    } else {
        lemma_trim_front_at(s.skip(1), lo - 1);
        assert(s.skip(1).subrange(lo - 1, s.skip(1).len() as int) =~= s.subrange(
            lo,
            s.len() as int,
        ));
    }
}

proof fn lemma_trim_back_at(s: Seq<u8>, hi: int)
    requires
        0 <= hi <= s.len(),
        forall|j: int| hi <= j < s.len() ==> is_ws_byte(s[j]),
        hi > 0 ==> !is_ws_byte(s[hi - 1]),
    ensures
        trim_back_bytes(s) == s.subrange(0, hi),
    decreases s.len() - hi,
{
    if hi == s.len() {
        assert(s.subrange(0, s.len() as int) =~= s);
    } else {
        assert(is_ws_byte(s.last()));
        assert forall|j: int| hi <= j < s.drop_last().len() implies is_ws_byte(
            s.drop_last()[j],
        ) by {
            assert(s.drop_last()[j] == s[j]);
        }
        if hi > 0 {
            assert(s.drop_last()[hi - 1] == s[hi - 1]);
        }
        lemma_trim_back_at(s.drop_last(), hi);
        assert(s.drop_last().subrange(0, hi) =~= s.subrange(0, hi));
    }
}

/// Exec version of `is_ws_byte`.
fn byte_is_ws(b: u8) -> (r: bool)
    ensures
        r == is_ws_byte(b),
{
    b == 0x20 || b == 0x09 || b == 0x0A || b == 0x0D
}

/// Strips leading and trailing ASCII whitespace from `v`.
pub fn trim_ascii(v: &Vec<u8>) -> (r: Vec<u8>)
    ensures
        r@ == spec_trim_bytes(v@),
{
    let mut lo: usize = 0;
    while lo < v.len() && byte_is_ws(v[lo])
        invariant
            lo <= v.len(),
            forall|j: int| 0 <= j < lo ==> is_ws_byte(v@[j]),
        decreases v.len() - lo,
    {
        lo = lo + 1;
    }
    proof {
        lemma_trim_front_at(v@, lo as int);
    }
    let mut hi: usize = v.len();
    while hi > lo && byte_is_ws(v[hi - 1])
        invariant
            lo <= hi <= v.len(),
            forall|j: int| hi <= j < v@.len() ==> is_ws_byte(v@[j]),
        decreases hi,
    {
        hi = hi - 1;
    }
    proof {
        let t = v@.subrange(lo as int, v@.len() as int);
        assert forall|j: int| hi - lo <= j < t.len() implies is_ws_byte(t[j]) by {
            assert(t[j] == v@[lo + j]);
        }
        if hi > lo {
            assert(t[hi - lo - 1] == v@[hi - 1]);
        }
        lemma_trim_back_at(t, hi - lo);
        assert(t.subrange(0, hi - lo) =~= v@.subrange(lo as int, hi as int));
    }
    copy_range(v, lo, hi)
}

// ---------------------------------------------------------------------------
// The state machine.
// ---------------------------------------------------------------------------

/// The backoff after one more transport error: doubled, but never past the
/// cap.
pub open spec fn capped_double(b: int, cap: int) -> int {
    if 2 * b <= cap {
        2 * b
    } else {
        cap
    }
}

/// What the resolver decides in state `st` when `ev` comes back, under
/// policy `p`. The whole retry design is in this function: exponential
/// backoff for transport errors, a fixed delay and a backoff reset for 404,
/// success or an immediate fatal error for everything else.
pub open spec fn spec_step(p: RetryPolicy, st: ResolverState, ev: HttpEventView) -> StepOutcome {
    match ev {
        HttpEventView::TransportError => {
            if st.attempt < p.max_attempts {
                StepOutcome::Retry {
                    delay_ms: st.backoff_ms,
                    next: ResolverState {
                        attempt: (st.attempt + 1) as u32,
                        backoff_ms: capped_double(
                            st.backoff_ms as int,
                            p.backoff_cap_ms as int,
                        ) as u64,
                    },
                }
            } else {
                StepOutcome::Failed { err: ResolveError::Network { attempts: p.max_attempts } }
            }
        },
        HttpEventView::Response { status, body } => {
            if status == 200 {
                match spec_parse_addr(spec_trim_bytes(body)) {
                    Some(addr) => StepOutcome::Resolved { addr },
                    None => StepOutcome::Failed { err: ResolveError::MalformedBody },
                }
            } else if status == 404 {
                if st.attempt < p.max_attempts {
                    StepOutcome::Retry {
                        delay_ms: p.not_found_delay_ms,
                        next: ResolverState {
                            attempt: (st.attempt + 1) as u32,
                            backoff_ms: p.initial_backoff_ms,
                        },
                    }
                } else {
                    StepOutcome::Failed { err: ResolveError::PeerNotFound }
                }
            } else {
                StepOutcome::Failed { err: ResolveError::UnexpectedStatus { status } }
            }
        },
    }
}

/// The state a resolution starts from.
pub open spec fn spec_start(p: RetryPolicy) -> ResolverState {
    ResolverState { attempt: 1, backoff_ms: p.initial_backoff_ms }
}

/// Returns the state a resolution starts from.
pub fn resolver_start(p: &RetryPolicy) -> (st: ResolverState)
    ensures
        st == spec_start(*p),
        p.wf() ==> st.wf(*p),
{
    ResolverState { attempt: 1, backoff_ms: p.initial_backoff_ms }
}

/// The retry policy of this client: five attempts, transport backoff from
/// 400 ms doubling up to 5 s, and a steady 600 ms poll after a 404.
pub fn default_retry_policy() -> (p: RetryPolicy)
    ensures
        p.max_attempts == 5,
        p.initial_backoff_ms == 400,
        p.backoff_cap_ms == 5000,
        p.not_found_delay_ms == 600,
        p.wf(),
{
    RetryPolicy {
        max_attempts: 5,
        initial_backoff_ms: 400,
        backoff_cap_ms: 5000,
        not_found_delay_ms: 600,
    }
}

/// Decides what to do after one wait request.
pub fn resolver_step(policy: &RetryPolicy, state: &ResolverState, event: &HttpEvent) -> (r:
    StepOutcome)
    requires
        policy.wf(),
        state.wf(*policy),
    ensures
        r == spec_step(*policy, *state, event@),
        r matches StepOutcome::Retry { delay_ms: _, next } ==> next.wf(*policy),
{
    match event {
        HttpEvent::TransportError => {
            if state.attempt < policy.max_attempts {
                let doubled: u64 = if state.backoff_ms <= policy.backoff_cap_ms / 2 {
                    2 * state.backoff_ms
                } else {
                    policy.backoff_cap_ms
                };
                StepOutcome::Retry {
                    delay_ms: state.backoff_ms,
                    next: ResolverState { attempt: state.attempt + 1, backoff_ms: doubled },
                }
            } else {
                StepOutcome::Failed {
                    err: ResolveError::Network { attempts: policy.max_attempts },
                }
            }
        },
        HttpEvent::Response { status, body } => {
            if *status == 200 {
                let trimmed = trim_ascii(body);
                match parse_peer_addr(&trimmed) {
                    Some(addr) => StepOutcome::Resolved { addr },
                    None => StepOutcome::Failed { err: ResolveError::MalformedBody },
                }
            } else if *status == 404 {
                if state.attempt < policy.max_attempts {
                    StepOutcome::Retry {
                        delay_ms: policy.not_found_delay_ms,
                        next: ResolverState {
                            attempt: state.attempt + 1,
                            backoff_ms: policy.initial_backoff_ms,
                        },
                    }
                } else {
                    StepOutcome::Failed { err: ResolveError::PeerNotFound }
                }
            } else {
                StepOutcome::Failed { err: ResolveError::UnexpectedStatus { status: *status } }
            }
        },
    }
}

/// The outcome of feeding `evs` to the machine one by one from `st`:
/// the first decision that is not a retry, or nothing if every event was
/// answered with a retry.
pub open spec fn run_events(p: RetryPolicy, st: ResolverState, evs: Seq<HttpEventView>) -> Option<
    StepOutcome,
>
    decreases evs.len(),
{
    if evs.len() == 0 {
        None
    } else {
        match spec_step(p, st, evs[0]) {
            StepOutcome::Retry { delay_ms: _, next } => run_events(p, next, evs.skip(1)),
            outcome => Some(outcome),
        }
    }
}

/// Whether an event is a 404 answer: the peer is not registered yet.
pub open spec fn is_not_found_event(ev: HttpEventView) -> bool {
    match ev {
        HttpEventView::Response { status, body: _ } => status == 404,
        _ => false,
    }
}

/// Law: against a server that answers "peer unknown" `n` times and then
/// hands out a well-formed address, the resolver reaches that address on
/// attempt `n + 1` when the policy allows that many attempts, and otherwise
/// exhausts its attempts and fails naming the peer as not found.
pub proof fn lemma_resolver_outlasts_late_peer(
    p: RetryPolicy,
    st: ResolverState,
    evs: Seq<HttpEventView>,
    n: nat,
    body: Seq<u8>,
    a: PeerAddr,
)
    requires
        p.wf(),
        st.wf(p),
        evs.len() == n + 1,
        forall|i: int| 0 <= i < n ==> is_not_found_event(evs[i]),
        evs[n as int] == (HttpEventView::Response { status: 200u16, body }),
        spec_parse_addr(spec_trim_bytes(body)) == Some(a),
    ensures
        st.attempt + n <= p.max_attempts ==> run_events(p, st, evs) == Some(
            StepOutcome::Resolved { addr: a },
        ),
        st.attempt + n > p.max_attempts ==> run_events(p, st, evs) == Some(
            StepOutcome::Failed { err: ResolveError::PeerNotFound },
        ),
    decreases n,
{
    if n == 0 {
        assert(spec_step(p, st, evs[0]) == StepOutcome::Resolved { addr: a });
    } else {
        assert(is_not_found_event(evs[0]));
        if st.attempt < p.max_attempts {
            let next = ResolverState {
                attempt: (st.attempt + 1) as u32,
                backoff_ms: p.initial_backoff_ms,
            };
            assert(spec_step(p, st, evs[0]) == StepOutcome::Retry {
                delay_ms: p.not_found_delay_ms,
                next,
            });
            assert forall|i: int| 0 <= i < n - 1 implies is_not_found_event(
                evs.skip(1)[i],
            ) by {
                assert(evs.skip(1)[i] == evs[i + 1]);
            }
            assert(evs.skip(1)[n - 1] == evs[n as int]);
            lemma_resolver_outlasts_late_peer(p, next, evs.skip(1), (n - 1) as nat, body, a);
        } else {
            assert(spec_step(p, st, evs[0]) == StepOutcome::Failed {
                err: ResolveError::PeerNotFound,
            });
        }
    }
}

/// Law: a 200 answer whose body does not parse as an address ends the
/// resolution at once with a malformed-body error, whatever attempts and
/// events would have remained.
pub proof fn lemma_malformed_body_fatal(
    p: RetryPolicy,
    st: ResolverState,
    evs: Seq<HttpEventView>,
    body: Seq<u8>,
)
    requires
        evs.len() >= 1,
        evs[0] == (HttpEventView::Response { status: 200u16, body }),
        spec_parse_addr(spec_trim_bytes(body)) is None,
    ensures
        run_events(p, st, evs) == Some(StepOutcome::Failed { err: ResolveError::MalformedBody }),
{
    assert(spec_step(p, st, evs[0]) == StepOutcome::Failed { err: ResolveError::MalformedBody });
}

/// The delays the resolver asks for across `k` consecutive transport
/// errors, starting from `st`.
pub open spec fn transport_delays(p: RetryPolicy, st: ResolverState, k: nat) -> Seq<u64>
    decreases k,
{
    if k == 0 {
        Seq::empty()
    } else {
        match spec_step(p, st, HttpEventView::TransportError) {
            StepOutcome::Retry { delay_ms, next } => seq![delay_ms] + transport_delays(
                p,
                next,
                (k - 1) as nat,
            ),
            _ => Seq::empty(),
        }
    }
}

/// Law: against a server that only fails at the transport level, the
/// successive retry delays never decrease, never fall below the current
/// backoff, and never exceed the policy's cap.
pub proof fn lemma_transport_backoff_shape(p: RetryPolicy, st: ResolverState, k: nat)
    requires
        p.wf(),
        st.wf(p),
    ensures
        ({
            let ds = transport_delays(p, st, k);
            &&& forall|i: int, j: int| 0 <= i <= j < ds.len() ==> ds[i] <= ds[j]
            &&& forall|i: int| 0 <= i < ds.len() ==> ds[i] <= p.backoff_cap_ms
            &&& forall|i: int| 0 <= i < ds.len() ==> ds[i] >= st.backoff_ms
        }),
    decreases k,
{
    if k > 0 && st.attempt < p.max_attempts {
        let next = ResolverState {
            attempt: (st.attempt + 1) as u32,
            backoff_ms: capped_double(st.backoff_ms as int, p.backoff_cap_ms as int) as u64,
        };
        assert(spec_step(p, st, HttpEventView::TransportError) == StepOutcome::Retry {
            delay_ms: st.backoff_ms,
            next,
        });
        assert(next.wf(p));
        assert(next.backoff_ms >= st.backoff_ms);
        lemma_transport_backoff_shape(p, next, (k - 1) as nat);
        let ds = transport_delays(p, st, k);
        let rest = transport_delays(p, next, (k - 1) as nat);
        assert(ds == seq![st.backoff_ms] + rest);
        assert forall|i: int, j: int| 0 <= i <= j < ds.len() implies ds[i] <= ds[j] by {
            if i == 0 {
                if j > 0 {
                    assert(ds[j] == rest[j - 1]);
                    assert(rest[j - 1] >= next.backoff_ms);
                }
            } else {
                assert(ds[i] == rest[i - 1]);
                assert(ds[j] == rest[j - 1]);
            }
        }
        assert forall|i: int| 0 <= i < ds.len() implies ds[i] <= p.backoff_cap_ms && ds[i]
            >= st.backoff_ms by {
            if i > 0 {
                assert(ds[i] == rest[i - 1]);
                assert(rest[i - 1] >= next.backoff_ms);
            }
        }
    }
}

/// Law: resolution never outlives its attempt budget. However the server
/// answers, once the events for the remaining attempts are in, the machine
/// has reached an address or a fatal error — it cannot retry forever.
pub proof fn lemma_resolver_attempts_bounded(
    p: RetryPolicy,
    st: ResolverState,
    evs: Seq<HttpEventView>,
)
    requires
        p.wf(),
        st.wf(p),
        evs.len() >= p.max_attempts - st.attempt + 1,
    ensures
        run_events(p, st, evs) is Some,
    decreases evs.len(),
{
    match spec_step(p, st, evs[0]) {
        StepOutcome::Retry { delay_ms: _, next } => {
            assert(st.attempt < p.max_attempts);
            assert(next.attempt == st.attempt + 1);
            assert(next.wf(p));
            lemma_resolver_attempts_bounded(p, next, evs.skip(1));
        },
        _ => {
        },
    }
}

/// Law: resolution is a function of the policy and of what the server
/// answered, and of nothing else; two resolutions of the same name against
/// an unchanged server see the same events and so end the same way — in
/// particular, with the same address.
pub proof fn lemma_resolution_deterministic(
    p: RetryPolicy,
    st: ResolverState,
    evs1: Seq<HttpEventView>,
    evs2: Seq<HttpEventView>,
)
    requires
        evs1 == evs2,
    ensures
        run_events(p, st, evs1) == run_events(p, st, evs2),
{
}

// ---------------------------------------------------------------------------
// The wait URL.
// ---------------------------------------------------------------------------

/// The text of the wait request for `peer` at `server`.
pub open spec fn spec_wait_url(server: Ipv4, peer: Seq<char>, timeout_s: u16) -> Seq<char> {
    "http://"@ + ipv4_chars(server) + ":8080/api/wait/"@ + peer + "?timeout="@ + dec_chars(
        timeout_s as nat,
    )
}

/// Builds the URL of the wait request for `peer` at `server`.
pub fn build_wait_url(server: &Ipv4, peer: &str, timeout_s: u16) -> (r: String)
    ensures
        r@ == spec_wait_url(*server, peer@, timeout_s),
{
    let mut out = String::new();
    out.append("http://");
    let host = format_ipv4(server);
    out.append(host.as_str());
    out.append(":8080/api/wait/");
    out.append(peer);
    out.append("?timeout=");
    push_decimal(&mut out, timeout_s);
    assert(out@ =~= spec_wait_url(*server, peer@, timeout_s));
    out
}

} // verus!
