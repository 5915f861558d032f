//! Framing of a recording file: each event's bytes follow a little-endian
//! `u32` length, and a compressed file starts with the gzip magic bytes.
use vstd::prelude::*;

verus! {

/// The little-endian bytes of `n`.
pub open spec fn le_bytes(n: u32) -> Seq<u8> {
    seq![(n & 0xff) as u8, ((n >> 8) & 0xff) as u8, ((n >> 16) & 0xff) as u8, ((n >> 24) & 0xff) as u8]
}

/// The `u32` whose little-endian bytes are `b`.
pub open spec fn le_value(b: Seq<u8>) -> u32 {
    (b[0] as u32) | ((b[1] as u32) << 8) | ((b[2] as u32) << 16) | ((b[3] as u32) << 24)
}

/// The length prefix of a frame: the payload's length as `u32` (its low 32
/// bits), little-endian.
pub fn length_prefix(len: usize) -> (r: [u8; 4])
    ensures
        r@ == le_bytes(len as u32),
{
    let n = len as u32;
    let r = [(n & 0xff) as u8, ((n >> 8) & 0xff) as u8, ((n >> 16) & 0xff) as u8, ((n >> 24) & 0xff) as u8];
    assert(r@ =~= le_bytes(n));
    r
}

/// The payload length a frame's prefix announces.
pub fn prefix_length(prefix: [u8; 4]) -> (r: u32)
    ensures
        r == le_value(prefix@),
{
    (prefix[0] as u32) | ((prefix[1] as u32) << 8) | ((prefix[2] as u32) << 16) | ((prefix[3] as u32) << 24)
}

/// A frame: the length prefix, then the payload.
pub fn frame(payload: &[u8]) -> (r: Vec<u8>)
    ensures
        r@ == le_bytes(payload@.len() as u32) + payload@,
{
    let prefix = length_prefix(payload.len());
    let mut out: Vec<u8> = Vec::new();
    out.push(prefix[0]);
    out.push(prefix[1]);
    out.push(prefix[2]);
    out.push(prefix[3]);
    let mut i: usize = 0;
    while i < payload.len()
        invariant
            i <= payload@.len(),
            out@ == prefix@ + payload@.take(i as int),
        decreases payload@.len() - i,
    {
        out.push(payload[i]);
        proof {
            assert(payload@.take(i as int + 1) =~= payload@.take(i as int).push(payload@[i as int]));
        }
        i = i + 1;
    }
    proof {
        assert(payload@.take(payload@.len() as int) =~= payload@);
        assert(out@ =~= le_bytes(payload@.len() as u32) + payload@);
    }
    out
}

/// Whether bytes start with the gzip magic bytes 0x1f 0x8b.
pub fn is_gzip_magic(start: &[u8]) -> (r: bool)
    ensures
        r == (start@.len() >= 2 && start@[0] == 0x1f && start@[1] == 0x8b),
{
    start.len() >= 2 && start[0] == 0x1f && start[1] == 0x8b
}

/// Reading a length prefix gives back the length that was written.
pub proof fn law_prefix_round_trip(n: u32)
    ensures
        le_value(le_bytes(n)) == n,
{
    let b0 = (n & 0xff) as u8;
    let b1 = ((n >> 8) & 0xff) as u8;
    let b2 = ((n >> 16) & 0xff) as u8;
    let b3 = ((n >> 24) & 0xff) as u8;
    assert((b0 as u32) | ((b1 as u32) << 8) | ((b2 as u32) << 16) | ((b3 as u32) << 24) == n) by (bit_vector)
        requires
            b0 == (n & 0xff) as u8,
            b1 == ((n >> 8) & 0xff) as u8,
            b2 == ((n >> 16) & 0xff) as u8,
            b3 == ((n >> 24) & 0xff) as u8,
    ;
}

/// A frame of a payload shorter than 2^32 bytes announces the payload's
/// length and carries it whole after the prefix.
pub proof fn law_frame_round_trip(payload: Seq<u8>)
    requires
        payload.len() <= u32::MAX,
    ensures
        le_value((le_bytes(payload.len() as u32) + payload).take(4)) == payload.len(),
        (le_bytes(payload.len() as u32) + payload).skip(4) == payload,
{
    let f = le_bytes(payload.len() as u32) + payload;
    assert(f.take(4) =~= le_bytes(payload.len() as u32));
    assert(f.skip(4) =~= payload);
    law_prefix_round_trip(payload.len() as u32);
}

} // verus!
