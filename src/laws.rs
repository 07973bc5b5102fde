use vstd::prelude::*;
use vstd::arithmetic::power2::lemma_pow2_strictly_increases;
use crate::bits::bit_len;
use crate::estimate::harmonic_sum;
use crate::hll::{
    HllModel, MAX_REGISTER_COUNT, compatible, fresh_model, identity_model, index_of, inserted,
    inserted_all, lemma_index_rank_bounds, max_rank, max_registers, merged, rank_of, raw_den,
    raw_num, rest_of,
};

verus! {

/// Inserting an element whose hash is `h` keeps an estimator well formed and
/// configured as it was.
pub proof fn lemma_insert_wf(v: HllModel, h: u64)
    requires
        v.wf(),
        !v.identity,
    ensures
        inserted(v, h).wf(),
        !inserted(v, h).identity,
        inserted(v, h).size == v.size,
        inserted(v, h).precision == v.precision,
{
    lemma_index_rank_bounds(v, h);
}

/// Inserting the same element twice leaves the registers as the first
/// insertion left them.
pub proof fn lemma_insert_idempotent(v: HllModel, h: u64)
    requires
        v.wf(),
        !v.identity,
    ensures
        inserted(inserted(v, h), h) == inserted(v, h),
{
    lemma_index_rank_bounds(v, h);
}

/// Insertion never lowers a register, and so never raises the harmonic sum
/// nor lowers the raw estimate `raw_num / raw_den`.
pub proof fn lemma_insert_monotone(v: HllModel, h: u64)
    requires
        v.wf(),
        !v.identity,
    ensures
        inserted(v, h).registers.len() == v.registers.len(),
        forall|i: int|
            0 <= i < v.registers.len() ==> #[trigger] inserted(v, h).registers[i]
                >= v.registers[i],
        raw_num(inserted(v, h)) == raw_num(v),
        raw_den(inserted(v, h)) <= raw_den(v),
{
    lemma_index_rank_bounds(v, h);
    lemma_insert_wf(v, h);
    let w = inserted(v, h);
    lemma_harmonic_sum_antimonotone(v.registers, w.registers, max_rank(v.precision));
    vstd::arithmetic::mul::lemma_mul_inequality(
        harmonic_sum(w.registers, max_rank(v.precision)) as int,
        harmonic_sum(v.registers, max_rank(v.precision)) as int,
        crate::estimate::alpha_den(v.size) as int,
    );
    vstd::arithmetic::mul::lemma_mul_is_commutative(
        harmonic_sum(w.registers, max_rank(v.precision)) as int,
        crate::estimate::alpha_den(v.size) as int,
    );
    vstd::arithmetic::mul::lemma_mul_is_commutative(
        harmonic_sum(v.registers, max_rank(v.precision)) as int,
        crate::estimate::alpha_den(v.size) as int,
    );
}

/// Raising registers (all at most `k`) never raises the harmonic sum.
pub proof fn lemma_harmonic_sum_antimonotone(a: Seq<u8>, b: Seq<u8>, k: nat)
    requires
        a.len() == b.len(),
        forall|i: int| 0 <= i < a.len() ==> a[i] <= #[trigger] b[i] <= k,
    ensures
        harmonic_sum(b, k) <= harmonic_sum(a, k),
    decreases a.len(),
{
    if a.len() > 0 {
        lemma_harmonic_sum_antimonotone(a.drop_last(), b.drop_last(), k);
        let i = a.len() - 1;
        assert(a[i] <= b[i] <= k);
        if a.last() < b.last() {
            lemma_pow2_strictly_increases((k - b.last()) as nat, (k - a.last()) as nat);
        }
    }
}

/// The identity is neutral on both sides of `merge`.
pub proof fn lemma_merge_identity(x: HllModel)
    requires
        x.wf(),
    ensures
        compatible(x, identity_model()),
        compatible(identity_model(), x),
        merged(x, identity_model()) == x,
        merged(identity_model(), x) == x,
{
}

/// Register-wise maximum keeps the register bound of a configuration.
proof fn lemma_merged_wf(a: HllModel, b: HllModel)
    requires
        a.wf(),
        b.wf(),
        compatible(a, b),
    ensures
        merged(a, b).wf(),
        merged(a, b).identity <==> a.identity && b.identity,
        !a.identity ==> merged(a, b).size == a.size && merged(a, b).precision == a.precision,
        !b.identity ==> merged(a, b).size == b.size && merged(a, b).precision == b.precision,
{
}

/// `merge` is commutative.
pub proof fn lemma_merge_commutative(a: HllModel, b: HllModel)
    requires
        a.wf(),
        b.wf(),
        compatible(a, b),
    ensures
        compatible(b, a),
        merged(a, b) == merged(b, a),
{
    if !a.identity && !b.identity {
        assert(max_registers(a.registers, b.registers) =~= max_registers(b.registers, a.registers));
    }
}

/// `merge` is associative over compatible estimators.
pub proof fn lemma_merge_associative(a: HllModel, b: HllModel, c: HllModel)
    requires
        a.wf(),
        b.wf(),
        c.wf(),
        compatible(a, b),
        compatible(b, c),
        compatible(a, c),
    ensures
        compatible(merged(a, b), c),
        compatible(a, merged(b, c)),
        merged(merged(a, b), c) == merged(a, merged(b, c)),
{
    lemma_merged_wf(a, b);
    lemma_merged_wf(b, c);
    if !a.identity && !b.identity && !c.identity {
        assert(max_registers(max_registers(a.registers, b.registers), c.registers)
            =~= max_registers(a.registers, max_registers(b.registers, c.registers)));
    }
}

/// Merging with an estimator after an insertion is inserting into the merge.
proof fn lemma_merge_inserted(x: HllModel, y: HllModel, h: u64)
    requires
        x.wf(),
        y.wf(),
        !x.identity,
        !y.identity,
        compatible(x, y),
    ensures
        merged(x, inserted(y, h)) == inserted(merged(x, y), h),
{
    lemma_index_rank_bounds(y, h);
    lemma_insert_wf(y, h);
    let j = index_of(h, y.precision) as int;
    let l = merged(x, inserted(y, h)).registers;
    let r = inserted(merged(x, y), h).registers;
    assert(l =~= r);
}

/// Inserting a sequence of hashes keeps an estimator well formed and
/// configured as it was.
pub proof fn lemma_inserted_all_wf(v: HllModel, hs: Seq<u64>)
    requires
        v.wf(),
        !v.identity,
    ensures
        inserted_all(v, hs).wf(),
        !inserted_all(v, hs).identity,
        inserted_all(v, hs).size == v.size,
        inserted_all(v, hs).precision == v.precision,
    decreases hs.len(),
{
    if hs.len() > 0 {
        lemma_inserted_all_wf(v, hs.drop_last());
        lemma_insert_wf(inserted_all(v, hs.drop_last()), hs.last());
    }
}

/// Inserting `s1` then `s2` is inserting `s1 + s2`.
pub proof fn lemma_inserted_all_append(v: HllModel, s1: Seq<u64>, s2: Seq<u64>)
    ensures
        inserted_all(inserted_all(v, s1), s2) == inserted_all(v, s1 + s2),
    decreases s2.len(),
{
    if s2.len() == 0 {
        assert(s1 + s2 =~= s1);
    } else {
        lemma_inserted_all_append(v, s1, s2.drop_last());
        assert((s1 + s2).drop_last() =~= s1 + s2.drop_last());
    }
}

/// Merging `x` with a fresh estimator that then took the hashes `hs` is
/// inserting `hs` into `x`.
proof fn lemma_merge_inserted_all(x: HllModel, hs: Seq<u64>)
    requires
        x.wf(),
        !x.identity,
    ensures
        merged(x, inserted_all(fresh_model(x.size), hs)) == inserted_all(x, hs),
    decreases hs.len(),
{
    let e = fresh_model(x.size);
    if hs.len() == 0 {
        assert(max_registers(x.registers, e.registers) =~= x.registers);
    } else {
        lemma_merge_inserted_all(x, hs.drop_last());
        lemma_inserted_all_wf(e, hs.drop_last());
        lemma_merge_inserted(x, inserted_all(e, hs.drop_last()), hs.last());
    }
}

/// Union: two fresh estimators of one configuration that took `s1` and `s2`
/// merge into the estimator that took `s1` and then `s2`.
pub proof fn lemma_merge_is_union(m: nat, s1: Seq<u64>, s2: Seq<u64>)
    requires
        1 <= m <= MAX_REGISTER_COUNT,
    ensures
        compatible(inserted_all(fresh_model(m), s1), inserted_all(fresh_model(m), s2)),
        merged(inserted_all(fresh_model(m), s1), inserted_all(fresh_model(m), s2))
            == inserted_all(fresh_model(m), s1 + s2),
{
    let e = fresh_model(m);
    lemma_inserted_all_wf(e, s1);
    lemma_inserted_all_wf(e, s2);
    lemma_merge_inserted_all(inserted_all(e, s1), s2);
    lemma_inserted_all_append(e, s1, s2);
}

/// Two fresh estimators of one configuration are equal, and an insertion
/// into a fresh estimator always changes it.
pub proof fn lemma_fresh_equality(m: nat, h: u64)
    requires
        1 <= m <= MAX_REGISTER_COUNT,
    ensures
        fresh_model(m) == fresh_model(m),
        inserted(fresh_model(m), h) != fresh_model(m),
{
    let e = fresh_model(m);
    lemma_index_rank_bounds(e, h);
    let j = index_of(h, e.precision) as int;
    assert(inserted(e, h).registers[j] != e.registers[j]);
}

/// A hash whose bits below the index are all zero gets the largest rank of
/// its configuration.
pub proof fn lemma_zero_rest_has_max_rank(h: u64, b: nat)
    requires
        b <= 64,
        rest_of(h, b) == 0,
    ensures
        rank_of(h, b) == max_rank(b),
{
    assert(bit_len(0) == 0);
}

} // verus!
