//! Little-endian byte-order helpers shared by the frame and header
//! layouts.  The specs are plain arithmetic so that contracts written
//! over them evaluate on concrete bytes.

use vstd::prelude::*;
use vstd::slice::slice_index_get;

verus! {

/// The 16-bit value held little-endian in a 2-byte sequence.
pub open spec fn spec_le_u16(s: Seq<u8>) -> u16
    recommends
        s.len() == 2,
{
    (s[0] + 0x100 * s[1]) as u16
}

/// The 32-bit value held little-endian in a 4-byte sequence.
pub open spec fn spec_le_u32(s: Seq<u8>) -> u32
    recommends
        s.len() == 4,
{
    (s[0] + 0x100 * s[1] + 0x1_0000 * s[2] + 0x100_0000 * s[3]) as u32
}

/// The little-endian 4-byte layout of a 32-bit value.
pub open spec fn spec_u32_le_bytes(x: u32) -> Seq<u8> {
    seq![
        (x % 0x100) as u8,
        ((x / 0x100) % 0x100) as u8,
        ((x / 0x1_0000) % 0x100) as u8,
        ((x / 0x100_0000) % 0x100) as u8,
    ]
}

/// Laying a value out little-endian and reading it back is the identity.
pub proof fn lemma_le_u32_round_trip(x: u32)
    ensures
        spec_le_u32(spec_u32_le_bytes(x)) == x,
{
    assert((x % 0x100) + 0x100 * ((x / 0x100) % 0x100) + 0x1_0000 * ((x / 0x1_0000) % 0x100)
        + 0x100_0000 * ((x / 0x100_0000) % 0x100) == x) by (bit_vector);
}

/// Reads the 16-bit value held little-endian in `s`.
pub fn le_u16(s: &[u8]) -> (x: u16)
    requires
        s@.len() == 2,
    ensures
        x == spec_le_u16(s@),
{
    let b0 = *slice_index_get(s, 0) as u16;
    let b1 = *slice_index_get(s, 1) as u16;
    b0 + 0x100 * b1
}

/// Reads the 32-bit value held little-endian in `s`.
pub fn le_u32(s: &[u8]) -> (x: u32)
    requires
        s@.len() == 4,
    ensures
        x == spec_le_u32(s@),
{
    let b0 = *slice_index_get(s, 0) as u32;
    let b1 = *slice_index_get(s, 1) as u32;
    let b2 = *slice_index_get(s, 2) as u32;
    let b3 = *slice_index_get(s, 3) as u32;
    b0 + 0x100 * b1 + 0x1_0000 * b2 + 0x100_0000 * b3
}

/// Appends the little-endian 4-byte layout of `x` to `out`.
pub fn push_u32_le(out: &mut Vec<u8>, x: u32)
    ensures
        final(out)@ == old(out)@ + spec_u32_le_bytes(x),
{
    out.push((x % 0x100) as u8);
    out.push(((x / 0x100) % 0x100) as u8);
    out.push(((x / 0x1_0000) % 0x100) as u8);
    out.push(((x / 0x100_0000) % 0x100) as u8);
    proof {
        assert(out@ =~= old(out)@ + spec_u32_le_bytes(x));
    }
}

} // verus!
