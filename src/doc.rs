use vstd::prelude::*;

verus! {

/// Ordinal of a document inside one segment.
pub type DocId = u32;

/// Ordinal of a segment inside one search snapshot.
pub type SegmentLocalId = u32;

/// Relevance of a document, as an integer key whose order is the order of
/// the scores: a greater key is a better score.
pub type Score = u32;

/// Identity of a document in a snapshot: its segment and its id there.
#[derive(Clone, Copy, Debug, PartialEq, Eq, Structural)]
pub struct DocAddress(pub SegmentLocalId, pub DocId);

/// Lexicographic order on addresses: segment first, then document id.
pub open spec fn address_lt(a: DocAddress, b: DocAddress) -> bool {
    a.0 < b.0 || (a.0 == b.0 && a.1 < b.1)
}

/// Maps the bit pattern of a 32-bit IEEE float to a key whose unsigned order
/// is the numeric order of the floats (NaNs aside).
pub open spec fn score_key_of_bits(bits: u32) -> u32 {
    if bits & 0x8000_0000u32 != 0 {
        !bits
    } else {
        bits | 0x8000_0000u32
    }
}

/// Inverse of `score_key_of_bits`.
pub open spec fn bits_of_score_key(key: u32) -> u32 {
    if key & 0x8000_0000u32 != 0 {
        key & 0x7fff_ffffu32
    } else {
        !key
    }
}

/// The score key of a float given by its bit pattern.
pub fn score_from_bits(bits: u32) -> (r: Score)
    ensures
        r == score_key_of_bits(bits),
        bits_of_score_key(r) == bits,
{
    if bits & 0x8000_0000u32 != 0 {
        let r = !bits;
        assert(r & 0x8000_0000u32 == 0 && !r == bits) by (bit_vector)
            requires r == !bits, bits & 0x8000_0000u32 != 0;
        r
    } else {
        let r = bits | 0x8000_0000u32;
        assert(r & 0x8000_0000u32 != 0 && r & 0x7fff_ffffu32 == bits) by (bit_vector)
            requires r == bits | 0x8000_0000u32, bits & 0x8000_0000u32 == 0;
        r
    }
}

/// The bit pattern of the float that a score key stands for.
pub fn score_to_bits(key: Score) -> (r: u32)
    ensures
        r == bits_of_score_key(key),
        score_key_of_bits(r) == key,
{
    if key & 0x8000_0000u32 != 0 {
        let r = key & 0x7fff_ffffu32;
        assert(r & 0x8000_0000u32 == 0 && (r | 0x8000_0000u32) == key) by (bit_vector)
            requires r == key & 0x7fff_ffffu32, key & 0x8000_0000u32 != 0;
        r
    } else {
        let r = !key;
        assert(r & 0x8000_0000u32 != 0 && !r == key) by (bit_vector)
            requires r == !key, key & 0x8000_0000u32 == 0;
        r
    }
}

} // verus!
