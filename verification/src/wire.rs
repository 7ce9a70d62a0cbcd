//! Big-endian integer encodings shared by all the wire codecs.
//!
//! DDS Security wire data is big-endian CDR, so every multi-octet integer
//! is laid out most significant octet first.

use vstd::prelude::*;

verus! {

/// The value of two octets read big-endian.
pub open spec fn be16(b0: u8, b1: u8) -> int {
    b0 * 0x100 + b1
}

/// The value of four octets read big-endian.
pub open spec fn be32(b0: u8, b1: u8, b2: u8, b3: u8) -> int {
    b0 * 0x100_0000 + b1 * 0x1_0000 + b2 * 0x100 + b3
}

/// The two-octet big-endian encoding of a 16-bit value.
pub open spec fn u16_be(x: u16) -> Seq<u8> {
    seq![(x / 0x100) as u8, (x % 0x100) as u8]
}

/// The four-octet big-endian encoding of a 32-bit value.
pub open spec fn u32_be(x: u32) -> Seq<u8> {
    seq![
        (x / 0x100_0000) as u8,
        ((x / 0x1_0000) % 0x100) as u8,
        ((x / 0x100) % 0x100) as u8,
        (x % 0x100) as u8,
    ]
}

pub proof fn lemma_be16_roundtrip(x: u16)
    ensures
        be16(u16_be(x)[0], u16_be(x)[1]) == x,
{
    assert(x / 0x100 < 0x100) by (bit_vector);
    assert((x / 0x100) * 0x100 + x % 0x100 == x) by (bit_vector);
}

pub proof fn lemma_be32_roundtrip(x: u32)
    ensures
        be32(u32_be(x)[0], u32_be(x)[1], u32_be(x)[2], u32_be(x)[3]) == x,
{
    assert(x / 0x100_0000 < 0x100) by (bit_vector);
    assert((x / 0x1_0000) % 0x100 < 0x100) by (bit_vector);
    assert((x / 0x100) % 0x100 < 0x100) by (bit_vector);
    assert((x / 0x100_0000) * 0x100_0000 + ((x / 0x1_0000) % 0x100) * 0x1_0000 + ((x / 0x100)
        % 0x100) * 0x100 + x % 0x100 == x) by (bit_vector);
}

/// Read a 16-bit big-endian value from two octets.
pub fn read_u16_be(b0: u8, b1: u8) -> (r: u16)
    ensures
        r == be16(b0, b1),
{
    (b0 as u16) * 0x100 + (b1 as u16)
}

/// Read a 32-bit big-endian value from four octets.
pub fn read_u32_be(b0: u8, b1: u8, b2: u8, b3: u8) -> (r: u32)
    ensures
        r == be32(b0, b1, b2, b3),
{
    (b0 as u32) * 0x100_0000 + (b1 as u32) * 0x1_0000 + (b2 as u32) * 0x100 + (b3 as u32)
}

/// Append the two-octet big-endian encoding of `x` to `out`.
pub fn push_u16_be(out: &mut Vec<u8>, x: u16)
    ensures
        final(out)@ == old(out)@ + u16_be(x),
{
    out.push((x / 0x100) as u8);
    out.push((x % 0x100) as u8);
    assert(final(out)@ =~= old(out)@ + u16_be(x));
}

/// Append the four-octet big-endian encoding of `x` to `out`.
pub fn push_u32_be(out: &mut Vec<u8>, x: u32)
    ensures
        final(out)@ == old(out)@ + u32_be(x),
{
    out.push((x / 0x100_0000) as u8);
    out.push(((x / 0x1_0000) % 0x100) as u8);
    out.push(((x / 0x100) % 0x100) as u8);
    out.push((x % 0x100) as u8);
    assert(final(out)@ =~= old(out)@ + u32_be(x));
}

} // verus!
