//! Peer transport addresses.
//!
//! The rendezvous server answers a successful wait request with a peer's
//! address as text, `A.B.C.D:PORT` in decimal. This module holds the
//! address model, the parser for that text, and the formatter used to tag
//! inbound chat lines with their sender.

use vstd::prelude::*;
use vstd::string::StringExecFns;

verus! {

/// ASCII code of `.`, the octet separator.
pub const DOT: u8 = 0x2E;

/// ASCII code of `:`, the host/port separator.
pub const COLON: u8 = 0x3A;

/// An IPv4 host address, one field per octet.
#[derive(Clone, Copy, PartialEq, Eq, Structural, Debug)]
pub struct Ipv4 {
    pub a: u8,
    pub b: u8,
    pub c: u8,
    pub d: u8,
}

/// A resolved peer transport address: IPv4 host and UDP port.
#[derive(Clone, Copy, PartialEq, Eq, Structural, Debug)]
pub struct PeerAddr {
    pub ip: Ipv4,
    pub port: u16,
}

// ---------------------------------------------------------------------------
// Decimal text, byte side (parsing).
// ---------------------------------------------------------------------------

/// Whether `b` is an ASCII decimal digit.
pub open spec fn is_digit(b: u8) -> bool {
    0x30 <= b && b <= 0x39
}

/// Whether every byte of `s` is an ASCII decimal digit.
pub open spec fn all_digits(s: Seq<u8>) -> bool {
    forall|i: int| 0 <= i < s.len() ==> is_digit(s[i])
}

/// The value of a digit string, most significant digit first.
pub open spec fn digits_val(s: Seq<u8>) -> int
    decreases s.len(),
{
    if s.len() == 0 {
        0
    } else {
        digits_val(s.drop_last()) * 10 + (s.last() - 0x30)
    }
}

/// A plain decimal numeral: non-empty, all digits, and no leading zero
/// (except the numeral `0` itself).
pub open spec fn is_plain_decimal(s: Seq<u8>) -> bool {
    &&& s.len() >= 1
    &&& all_digits(s)
    &&& (s.len() == 1 || s[0] != 0x30)
}

/// Ten to the power `k`.
pub open spec fn pow10(k: nat) -> int
    decreases k,
{
    if k == 0 {
        1
    } else {
        10 * pow10((k - 1) as nat)
    }
}

/// A digit string with a non-zero leading digit is at least ten to the
/// power of one less than its length.
pub proof fn lemma_digits_val_lower(s: Seq<u8>)
    requires
        all_digits(s),
        s.len() >= 1,
        s[0] != 0x30,
    ensures
        digits_val(s) >= pow10((s.len() - 1) as nat),
    decreases s.len(),
{
    if s.len() == 1 {
        assert(s.drop_last().len() == 0);
        assert(s.last() == s[0]);
        assert(is_digit(s[0]));
        assert(digits_val(s.drop_last()) == 0);
        assert(digits_val(s) == s[0] - 0x30);
        assert(pow10(0) == 1);
    } else {
        assert forall|i: int| 0 <= i < s.drop_last().len() implies is_digit(s.drop_last()[i]) by {
            assert(s.drop_last()[i] == s[i]);
        }
        assert(s.drop_last()[0] == s[0]);
        lemma_digits_val_lower(s.drop_last());
        assert(digits_val(s) == digits_val(s.drop_last()) * 10 + (s.last() - 0x30));
        assert(pow10((s.len() - 1) as nat) == 10 * pow10((s.len() - 2) as nat));
        assert(digits_val(s.drop_last()) * 10 >= pow10((s.len() - 2) as nat) * 10);
        assert(is_digit(s.last()));
    }
}

/// Every power of ten is positive.
pub proof fn lemma_pow10_pos(k: nat)
    ensures
        pow10(k) >= 1,
    decreases k,
{
    if k > 0 {
        lemma_pow10_pos((k - 1) as nat);
    }
}

/// Powers of ten grow with the exponent.
pub proof fn lemma_pow10_mono(a: nat, b: nat)
    requires
        a <= b,
    ensures
        pow10(a) <= pow10(b),
        pow10(a) >= 1,
    decreases b,
{
    lemma_pow10_pos(a);
    if a < b {
        lemma_pow10_mono(a, (b - 1) as nat);
    }
}

/// Index of the first occurrence of `b` in `s`, if any.
pub open spec fn find_byte(s: Seq<u8>, b: u8) -> Option<int>
    decreases s.len(),
{
    if s.len() == 0 {
        None
    } else if s[0] == b {
        Some(0)
    } else {
        match find_byte(s.skip(1), b) {
            Some(i) => Some(i + 1),
            None => None,
        }
    }
}

/// `find_byte` returns exactly the first occurrence.
pub proof fn lemma_find_byte_spec(s: Seq<u8>, b: u8)
    ensures
        match find_byte(s, b) {
            Some(i) => 0 <= i < s.len() && s[i] == b && (forall|j: int| 0 <= j < i ==> s[j] != b),
            None => forall|j: int| 0 <= j < s.len() ==> s[j] != b,
        },
    decreases s.len(),
{
    if s.len() == 0 {
    } else if s[0] == b {
    } else {
        lemma_find_byte_spec(s.skip(1), b);
        match find_byte(s.skip(1), b) {
            Some(i) => {
                assert(find_byte(s, b) == Some(i + 1));
                assert(s[i + 1] == s.skip(1)[i]);
                assert forall|j: int| 0 <= j < i + 1 implies s[j] != b by {
                    if j > 0 {
                        assert(s[j] == s.skip(1)[j - 1]);
                    }
                }
            },
            None => {
                assert forall|j: int| 0 <= j < s.len() implies s[j] != b by {
                    if j > 0 {
                        assert(s[j] == s.skip(1)[j - 1]);
                    }
                }
            },
        }
    }
}

/// A plain decimal numeral denoting an IPv4 octet.
pub open spec fn is_octet_text(s: Seq<u8>) -> bool {
    is_plain_decimal(s) && digits_val(s) <= 255
}

/// A plain decimal numeral denoting a UDP port.
pub open spec fn is_port_text(s: Seq<u8>) -> bool {
    is_plain_decimal(s) && digits_val(s) <= 65535
}

/// The address denoted by `A.B.C.D:PORT` text, split at the first `.` of
/// each remainder and then at the first `:`. Any other shape denotes
/// nothing.
pub open spec fn spec_parse_addr(s: Seq<u8>) -> Option<PeerAddr> {
    match find_byte(s, DOT) {
        None => None,
        Some(i1) => {
            let seg1 = s.subrange(0, i1);
            let rest1 = s.subrange(i1 + 1, s.len() as int);
            match find_byte(rest1, DOT) {
                None => None,
                Some(i2) => {
                    let seg2 = rest1.subrange(0, i2);
                    let rest2 = rest1.subrange(i2 + 1, rest1.len() as int);
                    match find_byte(rest2, DOT) {
                        None => None,
                        Some(i3) => {
                            let seg3 = rest2.subrange(0, i3);
                            let rest3 = rest2.subrange(i3 + 1, rest2.len() as int);
                            match find_byte(rest3, COLON) {
                                None => None,
                                Some(i4) => {
                                    let seg4 = rest3.subrange(0, i4);
                                    let pseg = rest3.subrange(i4 + 1, rest3.len() as int);
                                    if is_octet_text(seg1) && is_octet_text(seg2)
                                        && is_octet_text(seg3) && is_octet_text(seg4)
                                        && is_port_text(pseg) {
                                        Some(PeerAddr {
                                            ip: Ipv4 {
                                                a: digits_val(seg1) as u8,
                                                b: digits_val(seg2) as u8,
                                                c: digits_val(seg3) as u8,
                                                d: digits_val(seg4) as u8,
                                            },
                                            port: digits_val(pseg) as u16,
                                        })
                                    } else {
                                        None
                                    }
                                },
                            }
                        },
                    }
                },
            }
        },
    }
}

/// Copies `v[from..to]` into a fresh vector.
pub(crate) fn copy_range(v: &Vec<u8>, from: usize, to: usize) -> (r: Vec<u8>)
    requires
        from <= to <= v.len(),
    ensures
        r@ == v@.subrange(from as int, to as int),
{
    let mut r: Vec<u8> = Vec::new();
    let mut i: usize = from;
    while i < to
        invariant
            from <= i <= to <= v.len(),
            r@ == v@.subrange(from as int, i as int),
        decreases to - i,
    {
        r.push(v[i]);
        i = i + 1;
        assert(v@.subrange(from as int, i as int) =~= v@.subrange(from as int, i - 1)
            + seq![v@[i - 1]]);
    }
    r
}

/// Splits `v` at the first occurrence of `sep`: the part before it and the
/// part after it, or nothing when `sep` does not occur.
fn split_at_byte(v: &Vec<u8>, sep: u8) -> (r: Option<(Vec<u8>, Vec<u8>)>)
    ensures
        r is Some <==> find_byte(v@, sep) is Some,
        r is Some ==> {
            let i = find_byte(v@, sep).unwrap();
            r.unwrap().0@ == v@.subrange(0, i) && r.unwrap().1@ == v@.subrange(
                i + 1,
                v@.len() as int,
            )
        },
{
    proof {
        lemma_find_byte_spec(v@, sep);
    }
    let mut i: usize = 0;
    while i < v.len()
        invariant
            i <= v.len(),
            forall|j: int| 0 <= j < i ==> v@[j] != sep,
        decreases v.len() - i,
    {
        if v[i] == sep {
            proof {
                lemma_find_byte_spec(v@, sep);
                assert(find_byte(v@, sep) == Some(i as int));
            }
            let before = copy_range(v, 0, i);
            let after = copy_range(v, i + 1, v.len());
            return Some((before, after));
        }
        i = i + 1;
    }
    None
}

/// Parses a plain decimal numeral of value at most `bound`.
///
/// Returns the value exactly when the bytes are a plain decimal numeral
/// (non-empty, all digits, no leading zero) whose value is within `bound`.
pub fn parse_decimal_bounded(v: &Vec<u8>, bound: u32) -> (r: Option<u32>)
    requires
        bound <= 65535,
    ensures
        r is Some <==> is_plain_decimal(v@) && digits_val(v@) <= bound,
        r is Some ==> r.unwrap() as int == digits_val(v@),
{
    if v.len() == 0 {
        return None;
    }
    if v.len() > 1 && v[0] == 0x30 {
        return None;
    }
    if v.len() > 5 {
        proof {
            if is_plain_decimal(v@) {
                lemma_digits_val_lower(v@);
                lemma_pow10_mono(5, (v@.len() - 1) as nat);
                assert(pow10(0) == 1);
                assert(pow10(1) == 10);
                assert(pow10(2) == 100);
                assert(pow10(3) == 1000);
                assert(pow10(4) == 10000);
                assert(pow10(5) == 100000);
            }
        }
        return None;
    }
    let mut val: u32 = 0;
    let mut i: usize = 0;
    while i < v.len()
        invariant
            i <= v.len() <= 5,
            forall|j: int| 0 <= j < i ==> is_digit(v@[j]),
            val as int == digits_val(v@.subrange(0, i as int)),
            (val as int) < pow10(i as nat),
        decreases v.len() - i,
    {
        let b = v[i];
        if b < 0x30 || b > 0x39 {
            return None;
        }
        proof {
            assert forall|j: int| 0 <= j < v@.subrange(0, i as int).len() implies is_digit(
                v@.subrange(0, i as int)[j],
            ) by {
                assert(v@.subrange(0, i as int)[j] == v@[j]);
            }
            assert(pow10(0) == 1);
            assert(pow10(1) == 10);
            assert(pow10(2) == 100);
            assert(pow10(3) == 1000);
            assert(pow10(4) == 10000);
            assert(pow10(5) == 100000);
            lemma_pow10_mono(i as nat, 4);
        }
        val = val * 10 + (b - 0x30) as u32;
        i = i + 1;
        proof {
            assert(v@.subrange(0, i as int).drop_last() =~= v@.subrange(0, i - 1));
            assert(v@.subrange(0, i as int).last() == v@[i - 1]);
        }
    }
    proof {
        assert(v@.subrange(0, v@.len() as int) =~= v@);
    }
    if val <= bound {
        Some(val)
    } else {
        None
    }
}

/// Parses `A.B.C.D:PORT` text into a peer address; answers exactly what
/// the text denotes under `spec_parse_addr`.
pub fn parse_peer_addr(v: &Vec<u8>) -> (r: Option<PeerAddr>)
    ensures
        r == spec_parse_addr(v@),
{
    let (seg1, rest1) = match split_at_byte(v, DOT) {
        Some(p) => p,
        None => {
            return None;
        },
    };
    let (seg2, rest2) = match split_at_byte(&rest1, DOT) {
        Some(p) => p,
        None => {
            return None;
        },
    };
    let (seg3, rest3) = match split_at_byte(&rest2, DOT) {
        Some(p) => p,
        None => {
            return None;
        },
    };
    let (seg4, pseg) = match split_at_byte(&rest3, COLON) {
        Some(p) => p,
        None => {
            return None;
        },
    };
    let a = match parse_decimal_bounded(&seg1, 255) {
        Some(x) => x,
        None => {
            return None;
        },
    };
    let b = match parse_decimal_bounded(&seg2, 255) {
        Some(x) => x,
        None => {
            return None;
        },
    };
    let c = match parse_decimal_bounded(&seg3, 255) {
        Some(x) => x,
        None => {
            return None;
        },
    };
    let d = match parse_decimal_bounded(&seg4, 255) {
        Some(x) => x,
        None => {
            return None;
        },
    };
    let port = match parse_decimal_bounded(&pseg, 65535) {
        Some(x) => x,
        None => {
            return None;
        },
    };
    Some(
        PeerAddr {
            ip: Ipv4 { a: a as u8, b: b as u8, c: c as u8, d: d as u8 },
            port: port as u16,
        },
    )
}

// ---------------------------------------------------------------------------
// Decimal text, char side (formatting).
// ---------------------------------------------------------------------------

/// The character for one decimal digit.
pub open spec fn dec_digit_char(d: int) -> char {
    if d == 0 {
        '0'
    } else if d == 1 {
        '1'
    } else if d == 2 {
        '2'
    } else if d == 3 {
        '3'
    } else if d == 4 {
        '4'
    } else if d == 5 {
        '5'
    } else if d == 6 {
        '6'
    } else if d == 7 {
        '7'
    } else if d == 8 {
        '8'
    } else {
        '9'
    }
}

/// The decimal numeral of `n`, most significant digit first, without
/// leading zeros.
pub open spec fn dec_chars(n: nat) -> Seq<char>
    decreases n,
{
    if n < 10 {
        seq![dec_digit_char(n as int)]
    } else {
        dec_chars(n / 10) + seq![dec_digit_char((n % 10) as int)]
    }
}

/// The display text of an IPv4 host, `A.B.C.D`.
pub open spec fn ipv4_chars(ip: Ipv4) -> Seq<char> {
    dec_chars(ip.a as nat) + seq!['.'] + dec_chars(ip.b as nat) + seq!['.'] + dec_chars(
        ip.c as nat,
    ) + seq!['.'] + dec_chars(ip.d as nat)
}

/// The display text of a peer address, `A.B.C.D:PORT`.
pub open spec fn addr_chars(addr: PeerAddr) -> Seq<char> {
    ipv4_chars(addr.ip) + seq![':'] + dec_chars(addr.port as nat)
}

/// The one-character string for a digit.
fn digit_str(d: u16) -> (r: &'static str)
    requires
        d < 10,
    ensures
        r@ == seq![dec_digit_char(d as int)],
{
    proof {
        reveal_strlit("0");
        reveal_strlit("1");
        reveal_strlit("2");
        reveal_strlit("3");
        reveal_strlit("4");
        reveal_strlit("5");
        reveal_strlit("6");
        reveal_strlit("7");
        reveal_strlit("8");
        reveal_strlit("9");
    }
    if d == 0 {
        "0"
    } else if d == 1 {
        "1"
    } else if d == 2 {
        "2"
    } else if d == 3 {
        "3"
    } else if d == 4 {
        "4"
    } else if d == 5 {
        "5"
    } else if d == 6 {
        "6"
    } else if d == 7 {
        "7"
    } else if d == 8 {
        "8"
    } else {
        "9"
    }
}

/// Appends the decimal numeral of `n` to `out`.
pub fn push_decimal(out: &mut String, n: u16)
    ensures
        final(out)@ == old(out)@ + dec_chars(n as nat),
    decreases n,
{
    if n >= 10 {
        push_decimal(out, n / 10);
    }
    out.append(digit_str(n % 10));
}

/// Formats an IPv4 host as `A.B.C.D`.
pub fn format_ipv4(ip: &Ipv4) -> (r: String)
    ensures
        r@ == ipv4_chars(*ip),
{
    proof {
        reveal_strlit(".");
    }
    let mut out = String::new();
    push_decimal(&mut out, ip.a as u16);
    out.append(".");
    push_decimal(&mut out, ip.b as u16);
    out.append(".");
    push_decimal(&mut out, ip.c as u16);
    out.append(".");
    push_decimal(&mut out, ip.d as u16);
    assert(out@ =~= ipv4_chars(*ip));
    out
}

/// Formats a peer address as `A.B.C.D:PORT`.
pub fn format_peer_addr(addr: &PeerAddr) -> (r: String)
    ensures
        r@ == addr_chars(*addr),
{
    proof {
        reveal_strlit(":");
    }
    let mut out = format_ipv4(&addr.ip);
    out.append(":");
    push_decimal(&mut out, addr.port);
    assert(out@ =~= addr_chars(*addr));
    out
}

} // verus!
