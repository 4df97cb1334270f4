use vstd::prelude::*;

verus! {

/// The number of bits needed to write `x`: zero for zero.
pub open spec fn bit_width(x: nat) -> nat
    decreases x,
{
    if x == 0 {
        0
    } else {
        1 + bit_width(x / 2)
    }
}

/// The largest bit width among the values of `s`.
pub open spec fn max_bit_width(s: Seq<u32>) -> nat
    decreases s.len(),
{
    if s.len() == 0 {
        0
    } else {
        let w = bit_width(s.last() as nat);
        let m = max_bit_width(s.drop_last());
        if w > m {
            w
        } else {
            m
        }
    }
}

/// Two to the power `k`.
pub open spec fn two_to(k: nat) -> nat
    decreases k,
{
    if k == 0 {
        1
    } else {
        2 * two_to((k - 1) as nat)
    }
}

proof fn lemma_bit_width_below(x: nat, k: nat)
    requires
        x < two_to(k),
    ensures
        bit_width(x) <= k,
    decreases k,
{
    if x > 0 {
        assert(k > 0);
        lemma_bit_width_below(x / 2, (k - 1) as nat);
    }
}

/// A 32-bit value takes at most 32 bits.
pub proof fn lemma_bit_width_u32(x: u32)
    ensures
        bit_width(x as nat) <= 32,
{
    reveal_with_fuel(two_to, 33);
    assert(two_to(32) == 0x1_0000_0000);
    lemma_bit_width_below(x as nat, 32);
}

/// A block of 32-bit values takes at most 32 bits per value.
pub proof fn lemma_max_bit_width_u32(s: Seq<u32>)
    ensures
        max_bit_width(s) <= 32,
    decreases s.len(),
{
    if s.len() > 0 {
        lemma_bit_width_u32(s.last());
        lemma_max_bit_width_u32(s.drop_last());
    }
}

/// The eight bytes of `x`, least significant first.
pub open spec fn le_u64(x: u64) -> Seq<u8> {
    seq![
        x as u8,
        (x >> 8u64) as u8,
        (x >> 16u64) as u8,
        (x >> 24u64) as u8,
        (x >> 32u64) as u8,
        (x >> 40u64) as u8,
        (x >> 48u64) as u8,
        (x >> 56u64) as u8,
    ]
}

/// The four bytes of `x`, least significant first.
pub open spec fn le_u32(x: u32) -> Seq<u8> {
    seq![x as u8, (x >> 8u32) as u8, (x >> 16u32) as u8, (x >> 24u32) as u8]
}

/// The values of `s`, eight little-endian bytes each.
pub open spec fn le_u64s(s: Seq<u64>) -> Seq<u8>
    decreases s.len(),
{
    if s.len() == 0 {
        Seq::empty()
    } else {
        le_u64s(s.drop_last()) + le_u64(s.last())
    }
}

/// Appends the eight little-endian bytes of `x`.
pub fn serialize_u64(x: u64, out: &mut Vec<u8>)
    ensures
        final(out)@ == old(out)@ + le_u64(x),
{
    out.push(x as u8);
    out.push((x >> 8u64) as u8);
    out.push((x >> 16u64) as u8);
    out.push((x >> 24u64) as u8);
    out.push((x >> 32u64) as u8);
    out.push((x >> 40u64) as u8);
    out.push((x >> 48u64) as u8);
    out.push((x >> 56u64) as u8);
    assert(out@ =~= old(out)@ + le_u64(x));
}

/// Appends the four little-endian bytes of `x`.
pub fn serialize_u32(x: u32, out: &mut Vec<u8>)
    ensures
        final(out)@ == old(out)@ + le_u32(x),
{
    out.push(x as u8);
    out.push((x >> 8u32) as u8);
    out.push((x >> 16u32) as u8);
    out.push((x >> 24u32) as u8);
    assert(out@ =~= old(out)@ + le_u32(x));
}

} // verus!
