//! Duplex-session decisions.
//!
//! During the chat phase two things happen over the one socket: inbound
//! datagrams are shown tagged with their sender, and local input lines are
//! forwarded to the peer. The decisions — what is shown, what is sent, and
//! what is silently dropped — are here; the loops that wait on the socket
//! and on the terminal live in the surrounding binary.

use vstd::prelude::*;

use crate::addr::addr_chars;
use crate::addr::format_peer_addr;
use crate::addr::PeerAddr;
use vstd::string::StrSliceExecFns;
use vstd::string::StringExecFns;

verus! {

/// How many marker datagrams one punch burst sends.
pub const PUNCH_PACKET_COUNT: u32 = 100;

/// Pause between two marker datagrams of a punch burst, in milliseconds.
pub const PUNCH_INTERVAL_MS: u64 = 25;

/// The bytes of one punch marker datagram: the ASCII text `punch`.
pub open spec fn spec_punch_payload() -> Seq<u8> {
    seq![0x70u8, 0x75u8, 0x6Eu8, 0x63u8, 0x68u8]
}

/// Builds one punch marker datagram.
pub fn punch_payload() -> (r: Vec<u8>)
    ensures
        r@ == spec_punch_payload(),
{
    let mut r: Vec<u8> = Vec::new();
    r.push(0x70);
    r.push(0x75);
    r.push(0x6E);
    r.push(0x63);
    r.push(0x68);
    assert(r@ =~= spec_punch_payload());
    r
}

// ---------------------------------------------------------------------------
// Outgoing lines.
// ---------------------------------------------------------------------------

/// Whitespace stripped from the ends of an input line: space, tab, line
/// feed, carriage return.
pub open spec fn is_ws_char(c: char) -> bool {
    c == ' ' || c == '\t' || c == '\n' || c == '\r'
}

/// `s` without leading whitespace.
pub open spec fn trim_front_chars(s: Seq<char>) -> Seq<char>
    decreases s.len(),
{
    if s.len() > 0 && is_ws_char(s[0]) {
        trim_front_chars(s.skip(1))
    } else {
        s
    }
}

/// `s` without trailing whitespace.
pub open spec fn trim_back_chars(s: Seq<char>) -> Seq<char>
    decreases s.len(),
{
    if s.len() > 0 && is_ws_char(s.last()) {
        trim_back_chars(s.drop_last())
    } else {
        s
    }
}

/// `s` without leading or trailing whitespace.
pub open spec fn spec_trim_line(s: Seq<char>) -> Seq<char> {
    trim_back_chars(trim_front_chars(s))
}

proof fn lemma_trim_front_chars_at(s: Seq<char>, lo: int)
    requires
        0 <= lo <= s.len(),
        forall|j: int| 0 <= j < lo ==> is_ws_char(s[j]),
        lo < s.len() ==> !is_ws_char(s[lo]),
    ensures
        trim_front_chars(s) == s.subrange(lo, s.len() as int),
    decreases lo,
{
    if lo == 0 {
        assert(s.subrange(0, s.len() as int) =~= s);
    } else {
        lemma_trim_front_chars_at(s.skip(1), lo - 1);
        assert(s.skip(1).subrange(lo - 1, s.skip(1).len() as int) =~= s.subrange(
            lo,
            s.len() as int,
        ));
    }
}

proof fn lemma_trim_back_chars_at(s: Seq<char>, hi: int)
    requires
        0 <= hi <= s.len(),
        forall|j: int| hi <= j < s.len() ==> is_ws_char(s[j]),
        hi > 0 ==> !is_ws_char(s[hi - 1]),
    ensures
        trim_back_chars(s) == s.subrange(0, hi),
    decreases s.len() - hi,
{
    if hi == s.len() {
        assert(s.subrange(0, s.len() as int) =~= s);
    } else {
        assert(is_ws_char(s.last()));
        assert forall|j: int| hi <= j < s.drop_last().len() implies is_ws_char(
            s.drop_last()[j],
        ) by {
            assert(s.drop_last()[j] == s[j]);
        }
        if hi > 0 {
            assert(s.drop_last()[hi - 1] == s[hi - 1]);
        }
        lemma_trim_back_chars_at(s.drop_last(), hi);
        assert(s.drop_last().subrange(0, hi) =~= s.subrange(0, hi));
    }
}

/// Exec version of `is_ws_char`.
fn char_is_ws(c: char) -> (r: bool)
    ensures
        r == is_ws_char(c),
{
    c == ' ' || c == '\t' || c == '\n' || c == '\r'
}

/// Decides what one line of local input becomes: nothing when the line is
/// blank, else the trimmed line, the unit to send as one datagram.
pub fn handle_input_line(line: &str) -> (r: Option<String>)
    ensures
        r is Some <==> spec_trim_line(line@).len() > 0,
        r matches Some(m) ==> m@ == spec_trim_line(line@),
{
    let len = line.unicode_len();
    let mut lo: usize = 0;
    while lo < len && char_is_ws(line.get_char(lo))
        invariant
            lo <= len == line@.len(),
            forall|j: int| 0 <= j < lo ==> is_ws_char(line@[j]),
        decreases len - lo,
    {
        lo = lo + 1;
    }
    proof {
        lemma_trim_front_chars_at(line@, lo as int);
    }
    let mut hi: usize = len;
    while hi > lo && char_is_ws(line.get_char(hi - 1))
        invariant
            lo <= hi <= len == line@.len(),
            forall|j: int| hi <= j < line@.len() ==> is_ws_char(line@[j]),
        decreases hi,
    {
        hi = hi - 1;
    }
    proof {
        let t = line@.subrange(lo as int, line@.len() as int);
        assert forall|j: int| hi - lo <= j < t.len() implies is_ws_char(t[j]) by {
            assert(t[j] == line@[lo + j]);
        }
        if hi > lo {
            assert(t[hi - lo - 1] == line@[hi - 1]);
        }
        lemma_trim_back_chars_at(t, hi - lo);
        assert(t.subrange(0, hi - lo) =~= line@.subrange(lo as int, hi as int));
    }
    if hi == lo {
        None
    } else {
        let trimmed = line.substring_char(lo, hi);
        Some(String::from_str(trimmed))
    }
}

// ---------------------------------------------------------------------------
// Inbound datagrams.
// ---------------------------------------------------------------------------

/// The text that stands for a received payload on screen.
pub uninterp spec fn lossy_text(bytes: Seq<u8>) -> Seq<char>;

/// Relies on `String::from_utf8_lossy`: the shown text is a function of the
/// payload bytes alone — valid UTF-8 decoded as it is, anything else with
/// replacement characters.
#[verifier::external_body]
fn decode_lossy(bytes: &Vec<u8>) -> (r: String)
    ensures
        r@ == lossy_text(bytes@),
{
    String::from_utf8_lossy(bytes.as_slice()).into_owned()
}

/// The line shown for a datagram: the sender's address in brackets, a
/// space, and the payload's text.
pub open spec fn spec_display_line(from: PeerAddr, payload: Seq<u8>) -> Seq<char> {
    seq!['['] + addr_chars(from) + seq![']', ' '] + lossy_text(payload)
}

/// Decides what one inbound datagram becomes: nothing when it is empty —
/// an empty datagram carries no message — else the display line tagged
/// with the sender's address. Punch markers arrive here like any other
/// datagram and are shown as text, never treated as an error.
pub fn handle_datagram(payload: &Vec<u8>, from: &PeerAddr) -> (r: Option<String>)
    ensures
        r is Some <==> payload@.len() > 0,
        r matches Some(line) ==> line@ == spec_display_line(*from, payload@),
{
    if payload.len() == 0 {
        return None;
    }
    proof {
        reveal_strlit("[");
        reveal_strlit("] ");
    }
    let mut out = String::new();
    out.append("[");
    let tag = format_peer_addr(from);
    out.append(tag.as_str());
    out.append("] ");
    let text = decode_lossy(payload);
    out.append(text.as_str());
    assert(out@ =~= spec_display_line(*from, payload@));
    Some(out)
}

} // verus!
