//! Registration packet codec.
//!
//! An endpoint announces its name to the rendezvous server with a single
//! binary frame: a `0x00` byte, the name bytes, and a closing `0xFF` byte.
//! The frame carries no length and no checksum; the server recognises it by
//! its first and last byte alone.

use vstd::prelude::*;

verus! {

/// UDP port the rendezvous server accepts registration packets on.
pub const RENDEZVOUS_UDP_PORT: u16 = 4200;

/// How many times the registration packet is sent; it is never
/// acknowledged, so it is repeated to survive loss.
pub const REGISTRATION_SENDS: u32 = 3;

/// Pause between two sends of the registration packet, in milliseconds.
pub const REGISTRATION_INTERVAL_MS: u64 = 200;

/// Leading marker byte of a registration packet.
pub const PACKET_START: u8 = 0x00;

/// Trailing marker byte of a registration packet.
pub const PACKET_END: u8 = 0xFF;

/// The wire form of a registration packet for a given name.
pub open spec fn spec_encode_registration(name: Seq<u8>) -> Seq<u8> {
    seq![PACKET_START] + name + seq![PACKET_END]
}

/// A byte string is a well-formed registration packet when it has both
/// marker bytes around a (possibly empty) name.
pub open spec fn is_registration_packet(p: Seq<u8>) -> bool {
    &&& p.len() >= 2
    &&& p[0] == PACKET_START
    &&& p[p.len() - 1] == PACKET_END
}

/// The name carried by a well-formed registration packet.
pub open spec fn spec_decode_registration(p: Seq<u8>) -> Seq<u8> {
    p.subrange(1, p.len() - 1)
}

/// Builds the registration packet announcing `name`.
pub fn encode_registration(name: &Vec<u8>) -> (packet: Vec<u8>)
    ensures
        packet@ == spec_encode_registration(name@),
{
    let mut packet: Vec<u8> = Vec::new();
    packet.push(PACKET_START);
    let mut i: usize = 0;
    while i < name.len()
        invariant
            i <= name.len(),
            packet@ == seq![PACKET_START] + name@.subrange(0, i as int),
        decreases name.len() - i,
    {
        packet.push(name[i]);
        i = i + 1;
        assert(name@.subrange(0, i as int) =~= name@.subrange(0, i - 1) + seq![name@[i - 1]]);
        assert(packet@ =~= seq![PACKET_START] + name@.subrange(0, i as int));
    }
    assert(name@.subrange(0, name@.len() as int) =~= name@);
    packet.push(PACKET_END);
    assert(packet@ =~= spec_encode_registration(name@));
    packet
}

/// Recovers the name from a registration packet, or reports that the bytes
/// are not a well-formed packet.
pub fn decode_registration(packet: &Vec<u8>) -> (name: Option<Vec<u8>>)
    ensures
        name is Some <==> is_registration_packet(packet@),
        name is Some ==> name.unwrap()@ == spec_decode_registration(packet@),
{
    if packet.len() < 2 {
        return None;
    }
    if packet[0] != PACKET_START || packet[packet.len() - 1] != PACKET_END {
        return None;
    }
    let mut name: Vec<u8> = Vec::new();
    let mut i: usize = 1;
    while i < packet.len() - 1
        invariant
            1 <= i <= packet@.len() - 1,
            packet@.len() >= 2,
            name@ == packet@.subrange(1, i as int),
        decreases packet.len() - i,
    {
        name.push(packet[i]);
        i = i + 1;
        assert(packet@.subrange(1, i as int) =~= packet@.subrange(1, i - 1) + seq![packet@[i - 1]]);
        assert(name@ =~= packet@.subrange(1, i as int));
    }
    Some(name)
}

/// Law: encoding a name and decoding the result gives the name back, for
/// every name; and every well-formed packet re-encodes to itself, so the
/// codec loses nothing in either direction.
pub proof fn lemma_registration_round_trip(name: Seq<u8>, p: Seq<u8>)
    requires
        is_registration_packet(p),
    ensures
        is_registration_packet(spec_encode_registration(name)),
        spec_decode_registration(spec_encode_registration(name)) == name,
        spec_encode_registration(spec_decode_registration(p)) == p,
{
    assert(spec_decode_registration(spec_encode_registration(name)) =~= name);
    assert(spec_encode_registration(spec_decode_registration(p)) =~= p);
}

} // verus!
