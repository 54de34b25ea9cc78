use vstd::prelude::*;
use vstd::arithmetic::div_mod::lemma_fundamental_div_mod;

verus! {

// Big-endian integer fields of the wire format, as functions on bytes,
// together with the cursor-style decoders every parser's contract is
// phrased over.

/// The value of a 2-byte big-endian field.
pub open spec fn be16_val(b0: u8, b1: u8) -> int {
    b0 * 256 + b1
}

/// The 2-byte big-endian form of a value below 2^16.
pub open spec fn be16_bytes(x: int) -> Seq<u8>
    recommends
        0 <= x < 0x10000,
{
    seq![(x / 256) as u8, (x % 256) as u8]
}

/// The value of a 3-byte big-endian field.
pub open spec fn be24_val(b0: u8, b1: u8, b2: u8) -> int {
    b0 * 0x10000 + b1 * 256 + b2
}

/// The 3-byte big-endian form of a value below 2^24.
pub open spec fn be24_bytes(x: int) -> Seq<u8>
    recommends
        0 <= x < 0x1000000,
{
    seq![(x / 0x10000) as u8, ((x / 256) % 256) as u8, (x % 256) as u8]
}

pub proof fn lemma_be16_round_trip(x: int)
    requires
        0 <= x < 0x10000,
    ensures
        be16_bytes(x).len() == 2,
        be16_val(be16_bytes(x)[0], be16_bytes(x)[1]) == x,
{
    lemma_fundamental_div_mod(x, 256);
}

pub proof fn lemma_be24_round_trip(x: int)
    requires
        0 <= x < 0x1000000,
    ensures
        be24_bytes(x).len() == 3,
        be24_val(be24_bytes(x)[0], be24_bytes(x)[1], be24_bytes(x)[2]) == x,
{
    lemma_fundamental_div_mod(x, 256);
    lemma_fundamental_div_mod(x / 256, 256);
    assert(x / 0x10000 == (x / 256) / 256) by {
        vstd::arithmetic::div_mod::lemma_div_denominator(x, 256, 256);
    }
}

/// Reads one byte at cursor `i`; all-or-nothing.
pub open spec fn dec_u8(b: Seq<u8>, i: int) -> Option<(u8, int)> {
    if 0 <= i && i + 1 <= b.len() {
        Some((b[i], i + 1))
    } else {
        None
    }
}

/// Reads a 2-byte big-endian field at cursor `i`; all-or-nothing.
pub open spec fn dec_u16(b: Seq<u8>, i: int) -> Option<(u16, int)> {
    if 0 <= i && i + 2 <= b.len() {
        Some((be16_val(b[i], b[i + 1]) as u16, i + 2))
    } else {
        None
    }
}

/// Reads a 3-byte big-endian field at cursor `i`; all-or-nothing.
pub open spec fn dec_u24(b: Seq<u8>, i: int) -> Option<(u32, int)> {
    if 0 <= i && i + 3 <= b.len() {
        Some((be24_val(b[i], b[i + 1], b[i + 2]) as u32, i + 3))
    } else {
        None
    }
}

/// Reads `n` raw bytes at cursor `i`; all-or-nothing.
pub open spec fn dec_bytes(b: Seq<u8>, i: int, n: int) -> Option<(Seq<u8>, int)> {
    if 0 <= i && 0 <= n && i + n <= b.len() {
        Some((b.subrange(i, i + n), i + n))
    } else {
        None
    }
}

} // verus!
