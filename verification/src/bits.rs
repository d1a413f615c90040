use vstd::prelude::*;

verus! {

/// Bit `i` (counting from the least significant bit) of `x` is set.
pub open spec fn bit_set(x: u32, i: u32) -> bool {
    (x >> i) & 1 == 1
}

/// A bit of an OR is set exactly when it is set in one of the operands.
pub proof fn lemma_bit_set_or(a: u32, b: u32, i: u32)
    requires
        i < 32,
    ensures
        bit_set(a | b, i) == (bit_set(a, i) || bit_set(b, i)),
{
    assert(((a | b) >> i) & 1 == 1 <==> ((a >> i) & 1 == 1 || (b >> i) & 1 == 1)) by (bit_vector)
        requires
            i < 32,
    ;
}

/// No bit of zero is set.
pub proof fn lemma_bit_set_zero(i: u32)
    requires
        i < 32,
    ensures
        !bit_set(0, i),
{
    assert((0u32 >> i) & 1 != 1) by (bit_vector)
        requires
            i < 32,
    ;
}

} // verus!
