//! The wire format of input packets.
//!
//! A packet carries a contiguous run of one sender's confirmed inputs
//! together with the tick the run starts at, so every packet repeats
//! recent history: on a lossy channel the redundancy lets a receiver
//! fill its lane from whichever packet arrives first. The layout is a
//! fixed 12-byte header — handle (2 bytes), start tick (8 bytes) and
//! input count (2 bytes), each little-endian — followed by the input
//! bytes themselves. Anything that does not parse to exactly that
//! shape is rejected as `DecodeError`.

use vstd::bytes::*;
use vstd::prelude::*;
use vstd::slice::slice_subrange;

use crate::SessionError;

verus! {

/// A contiguous run of one handle's confirmed inputs: the input for
/// tick `start_tick + i` is `bits[i]`.
#[derive(Debug, PartialEq, Eq)]
pub struct InputPacket {
    pub handle: usize,
    pub start_tick: usize,
    pub bits: Vec<u8>,
}

/// The encoding of a packet with the given fields.
pub open spec fn spec_encode(handle: u16, start_tick: u64, bits: Seq<u8>) -> Seq<u8> {
    spec_u16_to_le_bytes(handle) + spec_u64_to_le_bytes(start_tick) + spec_u16_to_le_bytes(
        bits.len() as u16,
    ) + bits
}

/// Whether a byte string is a well-formed packet: a full header, a
/// body of exactly the announced length, and a start tick this
/// machine can count to.
pub open spec fn spec_wire_ok(b: Seq<u8>) -> bool {
    &&& b.len() >= 12
    &&& b.len() == 12 + spec_u16_from_le_bytes(b.subrange(10, 12))
    &&& spec_u64_from_le_bytes(b.subrange(2, 10)) <= usize::MAX
}

/// Serializes a packet for the wire.
pub fn encode_packet(p: &InputPacket) -> (r: Vec<u8>)
    requires
        p.handle <= 0xffff,
        p.bits@.len() <= 0xffff,
    ensures
        r@ == spec_encode(p.handle as u16, p.start_tick as u64, p.bits@),
{
    let mut out = u16_to_le_bytes(p.handle as u16);
    let mut tick_bytes = u64_to_le_bytes(p.start_tick as u64);
    out.append(&mut tick_bytes);
    let mut count_bytes = u16_to_le_bytes(p.bits.len() as u16);
    out.append(&mut count_bytes);
    let ghost header = out@;
    let mut i: usize = 0;
    while i < p.bits.len()
        invariant
            i <= p.bits@.len(),
            out@ == header + p.bits@.take(i as int),
        decreases p.bits@.len() - i,
    {
        let b = p.bits[i];
        out.push(b);
        proof {
            assert(header + p.bits@.take(i + 1int) =~= (header + p.bits@.take(i as int)).push(b));
        }
        i = i + 1;
    }
    proof {
        assert(out@ =~= spec_encode(p.handle as u16, p.start_tick as u64, p.bits@));
    }
    out
}

/// Parses a packet from the wire; a byte string that is not a
/// well-formed packet is rejected with `DecodeError`.
pub fn decode_packet(bytes: &Vec<u8>) -> (r: Result<InputPacket, SessionError>)
    ensures
        r is Ok <==> spec_wire_ok(bytes@),
        r matches Ok(p) ==> {
            &&& p.handle == spec_u16_from_le_bytes(bytes@.subrange(0, 2))
            &&& p.start_tick == spec_u64_from_le_bytes(bytes@.subrange(2, 10))
            &&& p.bits@ == bytes@.subrange(12, bytes@.len() as int)
        },
        r is Err ==> r == Err::<InputPacket, SessionError>(SessionError::DecodeError),
{
    if bytes.len() < 12 {
        return Err(SessionError::DecodeError);
    }
    let handle16 = u16_from_le_bytes(slice_subrange(bytes.as_slice(), 0, 2));
    let tick64 = u64_from_le_bytes(slice_subrange(bytes.as_slice(), 2, 10));
    let count16 = u16_from_le_bytes(slice_subrange(bytes.as_slice(), 10, 12));
    if bytes.len() - 12 != count16 as usize {
        return Err(SessionError::DecodeError);
    }
    if tick64 > usize::MAX as u64 {
        return Err(SessionError::DecodeError);
    }
    let mut bits: Vec<u8> = Vec::new();
    let mut i: usize = 12;
    while i < bytes.len()
        invariant
            12 <= i <= bytes@.len(),
            bits@ == bytes@.subrange(12, i as int),
        decreases bytes@.len() - i,
    {
        let b = bytes[i];
        bits.push(b);
        proof {
            assert(bytes@.subrange(12, i + 1int) =~= bytes@.subrange(12, i as int).push(b));
        }
        i = i + 1;
    }
    Ok(InputPacket { handle: handle16 as usize, start_tick: tick64 as usize, bits })
}

/// Decoding inverts encoding: a packet whose fields fit the wire
/// format comes back from its own encoding field for field.
pub proof fn lemma_encode_decode(handle: u16, start_tick: u64, bits: Seq<u8>)
    requires
        bits.len() <= 0xffff,
        start_tick <= usize::MAX,
    ensures
        spec_wire_ok(spec_encode(handle, start_tick, bits)),
        spec_u16_from_le_bytes(spec_encode(handle, start_tick, bits).subrange(0, 2)) == handle,
        spec_u64_from_le_bytes(spec_encode(handle, start_tick, bits).subrange(2, 10))
            == start_tick,
        spec_encode(handle, start_tick, bits).subrange(
            12,
            spec_encode(handle, start_tick, bits).len() as int,
        ) == bits,
{
    lemma_auto_spec_u16_to_from_le_bytes();
    lemma_auto_spec_u64_to_from_le_bytes();
    let b = spec_encode(handle, start_tick, bits);
    assert(b.subrange(0, 2) =~= spec_u16_to_le_bytes(handle));
    assert(b.subrange(2, 10) =~= spec_u64_to_le_bytes(start_tick));
    assert(b.subrange(10, 12) =~= spec_u16_to_le_bytes(bits.len() as u16));
    assert(b.subrange(12, b.len() as int) =~= bits);
}

} // verus!
