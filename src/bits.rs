use vstd::prelude::*;

verus! {

/// Number of significant bits of `v`: zero for zero, else one more than the
/// position of its highest set bit.
pub open spec fn bit_len(v: nat) -> nat
    decreases v,
{
    if v == 0 {
        0
    } else {
        1 + bit_len(v / 2)
    }
}

/// A value below `2^k` has at most `k` significant bits.
pub proof fn lemma_bit_len_bound(v: nat, k: nat)
    requires
        v < vstd::arithmetic::power2::pow2(k),
    ensures
        bit_len(v) <= k,
    decreases k,
{
    if k == 0 {
        vstd::arithmetic::power2::lemma2_to64();
    } else if v > 0 {
        vstd::arithmetic::power2::lemma_pow2_unfold(k);
        lemma_bit_len_bound(v / 2, (k - 1) as nat);
    }
}

/// Position, counted 1-based from the most significant end of a 64-bit word,
/// of the first set bit of `v`, or 64 when `v` is zero.
pub fn leftmost_one_bit(v: u64) -> (r: usize)
    ensures
        r == 64 - bit_len(v as nat),
        v == 0 ==> r == 64,
{
    let mut counter: usize = 0;
    let mut shiftable: u64 = v;
    proof {
        vstd::arithmetic::power2::lemma2_to64();
        vstd::arithmetic::power2::lemma2_to64_rest();
        lemma_bit_len_bound(v as nat, 64);
    }
    while shiftable > 0
        invariant
            counter + bit_len(shiftable as nat) == bit_len(v as nat),
            bit_len(v as nat) <= 64,
        decreases shiftable,
    {
        shiftable = shiftable / 2;
        counter = counter + 1;
    }
    64 - counter
}

} // verus!

verus! {

/// For a positive value, `2^(bit_len(v) - 1) <= v < 2^bit_len(v)`.
pub proof fn lemma_bit_len_brackets(v: nat)
    requires
        v >= 1,
    ensures
        bit_len(v) >= 1,
        vstd::arithmetic::power2::pow2((bit_len(v) - 1) as nat) <= v,
        v < vstd::arithmetic::power2::pow2(bit_len(v)),
    decreases v,
{
    vstd::arithmetic::power2::lemma_pow2_unfold(bit_len(v));
    if v == 1 {
        assert(bit_len(0) == 0);
        vstd::arithmetic::power2::lemma2_to64();
    } else {
        lemma_bit_len_brackets(v / 2);
        vstd::arithmetic::power2::lemma_pow2_unfold((bit_len(v) - 1) as nat);
    }
}

/// `1 << s` on 128 bits is `2^s`.
pub proof fn lemma_u128_one_shl(s: u128)
    requires
        s < 127,
    ensures
        (1u128 << s) as nat == vstd::arithmetic::power2::pow2(s as nat),
    decreases s,
{
    if s == 0 {
        assert(1u128 << 0u128 == 1u128) by (bit_vector);
        vstd::arithmetic::power2::lemma2_to64();
    } else {
        lemma_u128_one_shl((s - 1) as u128);
        assert((1u128 << s) == 2 * (1u128 << ((s - 1) as u128))) by (bit_vector)
            requires
                0 < s < 127,
        ;
        vstd::arithmetic::power2::lemma_pow2_unfold(s as nat);
    }
}

} // verus!
