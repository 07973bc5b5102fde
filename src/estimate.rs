use vstd::prelude::*;
use vstd::arithmetic::power2::{pow2, lemma_pow2_strictly_increases};
use crate::bits::lemma_u128_one_shl;

verus! {

/// Numerator of the bias constant α for `m` registers: fixed values for
/// 16, 32 and 64 registers, else `0.7213 / (1 + 1.079 / m)`, which is
/// `7213 m / (10000 m + 10790)`.
pub open spec fn alpha_num(m: nat) -> nat {
    if m == 16 {
        673
    } else if m == 32 {
        697
    } else if m == 64 {
        709
    } else {
        7213 * m
    }
}

/// Denominator of the bias constant α for `m` registers.
pub open spec fn alpha_den(m: nat) -> nat {
    if m == 16 || m == 32 || m == 64 {
        1000
    } else {
        10000 * m + 10790
    }
}

/// `Σ 2^(k - r)` over the registers `r`: the harmonic sum `Σ 2^-r`
/// scaled by `2^k`.
pub open spec fn harmonic_sum(regs: Seq<u8>, k: nat) -> nat
    decreases regs.len(),
{
    if regs.len() == 0 {
        0
    } else {
        harmonic_sum(regs.drop_last(), k) + pow2((k - regs.last()) as nat)
    }
}

/// Number of registers still zero.
pub open spec fn zero_count(regs: Seq<u8>) -> nat
    decreases regs.len(),
{
    if regs.len() == 0 {
        0
    } else {
        zero_count(regs.drop_last()) + if regs.last() == 0 {
            1nat
        } else {
            0nat
        }
    }
}

/// The raw harmonic-mean estimate as exact integers: it is
/// `(alpha_num / alpha_den) * registers^2 * 2^scale / harmonic_sum`.
#[derive(Debug, Clone, Copy, PartialEq, Eq, Structural)]
pub struct RawEstimate {
    pub alpha_num: u64,
    pub alpha_den: u64,
    pub registers: u64,
    pub harmonic_sum: u128,
    pub scale: u32,
}

/// Which estimate applies to an estimator, with the integers it is made of.
#[derive(Debug, Clone, Copy, PartialEq, Eq, Structural)]
pub enum Estimate {
    /// The merge identity: nothing has been counted, the estimate is 0.
    Empty,
    /// Small range with empty registers left: `registers * ln(registers / empty)`.
    LinearCounting { registers: u64, empty: u64 },
    /// Small range with no empty register, or medium range: the raw estimate `E`.
    Raw(RawEstimate),
    /// Large range: `-2^32 * ln(1 - E / 2^32)`.
    LargeRange(RawEstimate),
}

/// The value of `2^66`.
pub proof fn lemma_pow2_66()
    ensures
        pow2(66) == 0x4_0000_0000_0000_0000,
        pow2(64) == 0x1_0000_0000_0000_0000,
        pow2(32) == 0x1_0000_0000,
        pow2(34) == 0x4_0000_0000,
{
    vstd::arithmetic::power2::lemma2_to64();
    vstd::arithmetic::power2::lemma2_to64_rest();
    vstd::arithmetic::power2::lemma_pow2_adds(64, 2);
}

/// Count the empty registers.
pub fn count_zero_registers(regs: &Vec<u8>) -> (r: u64)
    requires
        regs.len() <= u64::MAX,
    ensures
        r == zero_count(regs@),
{
    let mut count: u64 = 0;
    let mut i: usize = 0;
    while i < regs.len()
        invariant
            i <= regs.len() <= u64::MAX,
            count == zero_count(regs@.take(i as int)),
            count <= i,
        decreases regs.len() - i,
    {
        assert(regs@.take(i + 1).drop_last() =~= regs@.take(i as int));
        if regs[i] == 0 {
            count = count + 1;
        }
        i = i + 1;
    }
    assert(regs@.take(regs.len() as int) =~= regs@);
    count
}

/// `Σ 2^(k - r)` over the registers, each at most `k`.
pub fn scaled_harmonic_sum(regs: &Vec<u8>, k: u32) -> (r: u128)
    requires
        k <= 65,
        regs.len() * pow2(k as nat) < pow2(66),
        forall|i: int| 0 <= i < regs.len() ==> #[trigger] regs@[i] <= k,
    ensures
        r == harmonic_sum(regs@, k as nat),
        r <= regs.len() * pow2(k as nat),
{
    let mut t: u128 = 0;
    let mut i: usize = 0;
    proof {
        lemma_pow2_66();
    }
    while i < regs.len()
        invariant
            i <= regs.len(),
            k <= 65,
            regs.len() * pow2(k as nat) < pow2(66),
            pow2(66) == 0x4_0000_0000_0000_0000,
            forall|i: int| 0 <= i < regs.len() ==> #[trigger] regs@[i] <= k,
            t == harmonic_sum(regs@.take(i as int), k as nat),
            t <= i * pow2(k as nat),
        decreases regs.len() - i,
    {
        assert(regs@.take(i + 1).drop_last() =~= regs@.take(i as int));
        let r = regs[i];
        let e: u32 = k - r as u32;
        proof {
            lemma_u128_one_shl(e as u128);
            if e < k {
                lemma_pow2_strictly_increases(e as nat, k as nat);
            }
            vstd::arithmetic::mul::lemma_mul_inequality((i + 1) as int, regs.len() as int, pow2(k as nat) as int);
            vstd::arithmetic::mul::lemma_mul_is_distributive_add_other_way(pow2(k as nat) as int, i as int, 1);
        }
        let term: u128 = 1u128 << (e as u128);
        t = t + term;
        i = i + 1;
    }
    assert(regs@.take(regs.len() as int) =~= regs@);
    t
}

} // verus!
