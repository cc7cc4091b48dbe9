//! Big-endian encoding and decoding of 32-bit unsigned integers, as the
//! chunk format stores its length and checksum fields.

use vstd::prelude::*;

verus! {

/// The value of four bytes read as a big-endian 32-bit unsigned integer.
pub open spec fn be32(b0: u8, b1: u8, b2: u8, b3: u8) -> u32 {
    (b0 * 0x100_0000 + b1 * 0x1_0000 + b2 * 0x100 + b3) as u32
}

/// The value of the four bytes at `i` in `s`, read as big-endian.
pub open spec fn be32_at(s: Seq<u8>, i: int) -> u32
    recommends
        0 <= i,
        i + 4 <= s.len(),
{
    be32(s[i], s[i + 1], s[i + 2], s[i + 3])
}

/// The four-byte big-endian encoding of `x`.
pub open spec fn be32_bytes(x: u32) -> Seq<u8> {
    seq![
        (x / 0x100_0000) as u8,
        ((x / 0x1_0000) % 0x100) as u8,
        ((x / 0x100) % 0x100) as u8,
        (x % 0x100) as u8,
    ]
}

/// Decoding inverts encoding: the big-endian bytes of `x` read back as `x`.
pub proof fn lemma_be32_of_bytes(x: u32)
    ensures
        be32_at(be32_bytes(x), 0) == x,
{
    assert(((x / 0x100_0000) as u8) * 0x100_0000 + (((x / 0x1_0000) % 0x100) as u8) * 0x1_0000 + (((
    x / 0x100) % 0x100) as u8) * 0x100 + ((x % 0x100) as u8) == x) by (bit_vector);
}

/// Encoding inverts decoding: the bytes of a decoded value are the original bytes.
pub proof fn lemma_bytes_of_be32(b0: u8, b1: u8, b2: u8, b3: u8)
    ensures
        be32_bytes(be32(b0, b1, b2, b3)) =~= seq![b0, b1, b2, b3],
{
    let x = be32(b0, b1, b2, b3);
    assert((((b0 as u32) * 0x100_0000 + (b1 as u32) * 0x1_0000 + (b2 as u32) * 0x100 + (
    b3 as u32)) / 0x100_0000) as u8 == b0) by (bit_vector);
    assert(((((b0 as u32) * 0x100_0000 + (b1 as u32) * 0x1_0000 + (b2 as u32) * 0x100 + (
    b3 as u32)) / 0x1_0000) % 0x100) as u8 == b1) by (bit_vector);
    assert(((((b0 as u32) * 0x100_0000 + (b1 as u32) * 0x1_0000 + (b2 as u32) * 0x100 + (
    b3 as u32)) / 0x100) % 0x100) as u8 == b2) by (bit_vector);
    assert((((b0 as u32) * 0x100_0000 + (b1 as u32) * 0x1_0000 + (b2 as u32) * 0x100 + (
    b3 as u32)) % 0x100) as u8 == b3) by (bit_vector);
    assert(b0 * 0x100_0000 + b1 * 0x1_0000 + b2 * 0x100 + b3 <= 0xFFFF_FFFF) by (bit_vector);
}

/// Reads four bytes as a big-endian 32-bit unsigned integer.
pub fn read_be32(b0: u8, b1: u8, b2: u8, b3: u8) -> (x: u32)
    ensures
        x == be32(b0, b1, b2, b3),
{
    proof {
        assert(b0 * 0x100_0000 + b1 * 0x1_0000 + b2 * 0x100 + b3 <= 0xFFFF_FFFF) by (bit_vector);
    }
    (b0 as u32) * 0x100_0000 + (b1 as u32) * 0x1_0000 + (b2 as u32) * 0x100 + (b3 as u32)
}

/// Appends the four-byte big-endian encoding of `x` to `out`.
pub fn write_be32(x: u32, out: &mut Vec<u8>)
    ensures
        final(out)@ =~= old(out)@ + be32_bytes(x),
{
    proof {
        assert(x / 0x100_0000 < 0x100 && (x / 0x1_0000) % 0x100 < 0x100 && (x / 0x100) % 0x100
            < 0x100 && x % 0x100 < 0x100) by (bit_vector);
    }
    out.push((x / 0x100_0000) as u8);
    out.push(((x / 0x1_0000) % 0x100) as u8);
    out.push(((x / 0x100) % 0x100) as u8);
    out.push((x % 0x100) as u8);
}

} // verus!
