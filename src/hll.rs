use vstd::prelude::*;
use vstd::arithmetic::power2::{pow2, lemma_pow2_adds, lemma_pow2_pos, lemma_pow2_strictly_increases};
use crate::bits::{lemma_u128_one_shl, bit_len, leftmost_one_bit, lemma_bit_len_bound, lemma_bit_len_brackets};
use crate::estimate::{
    alpha_num, alpha_den, harmonic_sum, zero_count, RawEstimate, Estimate, count_zero_registers,
    scaled_harmonic_sum, lemma_pow2_66,
};

verus! {

/// Largest number of registers an estimator may hold: `2^32`, a 4 GiB
/// register array, far past any useful precision.
pub const MAX_REGISTER_COUNT: u64 = 0x1_0000_0000;

/// Why an estimator could not be built or combined.
#[derive(Debug, Clone, Copy, PartialEq, Eq, Structural)]
pub enum HllError {
    /// The requested register count is zero or above `MAX_REGISTER_COUNT`.
    InvalidConfiguration,
    /// Two configured estimators with different register counts were merged.
    IncompatibleConfiguration,
}

/// The mathematical content of an estimator.
pub struct HllModel {
    /// `b`: number of leading hash bits that select a register.
    pub precision: nat,
    /// `m`: number of registers.
    pub size: nat,
    pub registers: Seq<u8>,
    /// The distinguished neutral element of `merge`.
    pub identity: bool,
}

/// A HyperLogLog estimator: `m` one-byte registers, each the largest rank
/// seen among the hashes routed to it.
#[derive(Debug)]
pub struct HLL {
    b: u32,
    m: usize,
    registers: Vec<u8>,
    is_zero: bool,
}

impl View for HLL {
    type V = HllModel;

    closed spec fn view(&self) -> HllModel {
        HllModel {
            precision: self.b as nat,
            size: self.m as nat,
            registers: self.registers@,
            identity: self.is_zero,
        }
    }
}

/// `floor(log2(m))` for a positive `m`.
pub open spec fn precision_of(m: nat) -> nat {
    (bit_len(m) - 1) as nat
}

/// Largest value a register can reach when `b` bits select the register.
pub open spec fn max_rank(b: nat) -> nat {
    (65 - b) as nat
}

/// The neutral element of `merge`.
pub open spec fn identity_model() -> HllModel {
    HllModel { precision: 0, size: 0, registers: Seq::empty(), identity: true }
}

/// A configured estimator with `m` registers, none of them set.
pub open spec fn fresh_model(m: nat) -> HllModel {
    HllModel {
        precision: precision_of(m),
        size: m,
        registers: Seq::new(m, |i: int| 0u8),
        identity: false,
    }
}

impl HllModel {
    /// Configuration and register bounds every estimator keeps.
    pub open spec fn wf(self) -> bool {
        if self.identity {
            self == identity_model()
        } else {
            &&& 1 <= self.size <= MAX_REGISTER_COUNT
            &&& self.precision == precision_of(self.size)
            &&& self.registers.len() == self.size
            &&& forall|i: int|
                0 <= i < self.registers.len() ==> #[trigger] self.registers[i] <= max_rank(
                    self.precision,
                )
        }
    }
}

/// Register selected by hash `h`: its top `b` bits.
pub open spec fn index_of(h: u64, b: nat) -> nat {
    h as nat / pow2((64 - b) as nat)
}

/// The low `64 - b` bits of hash `h`, those left after the index.
pub open spec fn rest_of(h: u64, b: nat) -> nat {
    h as nat % pow2((64 - b) as nat)
}

/// Rank of hash `h`: the 1-based position of the first set bit of its
/// `64 - b` low bits, or `65 - b` when they are all zero.
pub open spec fn rank_of(h: u64, b: nat) -> nat {
    (65 - b - bit_len(rest_of(h, b))) as nat
}

/// Registers after a hash has been routed to its register.
pub open spec fn registers_after(regs: Seq<u8>, b: nat, h: u64) -> Seq<u8> {
    let j = index_of(h, b) as int;
    if rank_of(h, b) > regs[j] {
        regs.update(j, rank_of(h, b) as u8)
    } else {
        regs
    }
}

/// The estimator after inserting an element whose hash is `h`.
pub open spec fn inserted(v: HllModel, h: u64) -> HllModel {
    HllModel { registers: registers_after(v.registers, v.precision, h), ..v }
}

/// The estimator after inserting the hashes of `hs`, in order.
pub open spec fn inserted_all(v: HllModel, hs: Seq<u64>) -> HllModel
    decreases hs.len(),
{
    if hs.len() == 0 {
        v
    } else {
        inserted(inserted_all(v, hs.drop_last()), hs.last())
    }
}

/// Index and rank of a hash stay within the configuration's bounds.
pub proof fn lemma_index_rank_bounds(v: HllModel, h: u64)
    requires
        v.wf(),
        !v.identity,
    ensures
        index_of(h, v.precision) < v.size,
        1 <= rank_of(h, v.precision) <= max_rank(v.precision),
        bit_len(rest_of(h, v.precision)) + v.precision <= 64,
        v.precision <= 32,
{
    let b = v.precision;
    lemma_bit_len_brackets(v.size);
    vstd::arithmetic::power2::lemma2_to64();
    vstd::arithmetic::power2::lemma2_to64_rest();
    if bit_len(v.size) > 33 {
        lemma_pow2_strictly_increases(32, (bit_len(v.size) - 1) as nat);
        lemma_pow2_strictly_increases(32, 33);
    }
    assert(b <= 32);
    let s = (64 - b) as nat;
    lemma_pow2_pos(s);
    lemma_pow2_adds(b, s);
    assert(h < pow2(b) * pow2(s));
    assert((h as int) / (pow2(s) as int) < (pow2(b) as int)) by {
        vstd::arithmetic::mul::lemma_mul_is_commutative(pow2(b) as int, pow2(s) as int);
        vstd::arithmetic::div_mod::lemma_multiply_divide_lt(h as int, pow2(s) as int, pow2(b) as int);
    }
    assert(pow2(b) <= v.size);
    vstd::arithmetic::div_mod::lemma_mod_bound(h as int, pow2(s) as int);
    lemma_bit_len_bound(rest_of(h, b), s);
}

/// Hash of `val`, by SipHash-2-4 with zero keys.
/// Relies on `BuildHasher::hash_one` over std's `SipHasher`: nothing is
/// assumed of the value returned.
#[verifier::external_body]
#[allow(deprecated)]
pub fn get_hash<T: std::hash::Hash + ?Sized>(val: &T) -> (r: u64) {
    std::hash::BuildHasher::hash_one(
        &std::hash::BuildHasherDefault::<std::hash::SipHasher>::default(),
        val,
    )
}

impl HLL {
    /// The estimator is well formed.
    pub closed spec fn wf(&self) -> bool {
        self@.wf()
    }

    /// An estimator with `m` registers, all zero, using `floor(log2(m))`
    /// hash bits to pick a register.
    pub fn from_register_count(m: usize) -> (r: Result<HLL, HllError>)
        ensures
            match r {
                Ok(h) => h.wf() && h@ == fresh_model(m as nat),
                Err(e) => e == HllError::InvalidConfiguration,
            },
            r is Ok <==> 1 <= m <= MAX_REGISTER_COUNT,
    {
        if m == 0 || m as u64 > MAX_REGISTER_COUNT {
            return Err(HllError::InvalidConfiguration);
        }
        let b: u32 = (63 - leftmost_one_bit(m as u64)) as u32;
        let mut registers: Vec<u8> = Vec::new();
        let mut i: usize = 0;
        while i < m
            invariant
                i <= m,
                registers@ == Seq::new(i as nat, |k: int| 0u8),
            decreases m - i,
        {
            registers.push(0u8);
            i = i + 1;
            assert(registers@ =~= Seq::new(i as nat, |k: int| 0u8));
        }
        let h = HLL { b, m, registers, is_zero: false };
        assert(h@ =~= fresh_model(m as nat));
        Ok(h)
    }

    /// An estimator with one hundred and twenty eight registers.
    pub fn one_hundred_twenty_eight() -> (r: HLL)
        ensures
            r.wf(),
            r@ == fresh_model(128),
    {
        match HLL::from_register_count(128) {
            Ok(h) => h,
            Err(_) => {
                proof {
                    assert(false);
                }
                HLL::empty()
            },
        }
    }

    /// The neutral element of `merge`: no registers, no configuration.
    pub fn empty() -> (r: HLL)
        ensures
            r.wf(),
            r@ == identity_model(),
    {
        let h = HLL { b: 0, m: 0, registers: Vec::new(), is_zero: true };
        assert(h@ =~= identity_model());
        h
    }

    /// Route a hash to its register and raise the register to the hash's
    /// rank. Returns whether the register changed.
    pub fn insert_hash(&mut self, hash: u64) -> (changed: bool)
        requires
            old(self).wf(),
            !old(self)@.identity,
        ensures
            final(self).wf(),
            final(self)@ == inserted(old(self)@, hash),
            changed <==> final(self)@ != old(self)@,
    {
        proof {
            lemma_index_rank_bounds(self@, hash);
            vstd::arithmetic::power2::lemma2_to64();
            vstd::arithmetic::power2::lemma2_to64_rest();
        }
        let b = self.b;
        let s: u64 = (64 - b) as u64;
        let j: usize;
        let w: u64;
        if b == 0 {
            j = 0;
            w = hash;
            proof {
                vstd::arithmetic::div_mod::lemma_small_mod(hash as nat, pow2(64));
                vstd::arithmetic::div_mod::lemma_basic_div(hash as int, pow2(64) as int);
            }
        } else {
            proof {
                vstd::bits::lemma_u64_shr_is_div(hash, s);
                vstd::bits::lemma_u64_pow2_no_overflow(s as nat);
                vstd::bits::lemma_u64_shl_is_mul(1, s);
            }
            j = (hash >> s) as usize;
            w = hash % (1u64 << s);
        }
        assert(w as nat == rest_of(hash, b as nat));
        assert(j as nat == index_of(hash, b as nat));
        let rho: u8 = (leftmost_one_bit(w) + 1 - b as usize) as u8;
        assert(rho as nat == rank_of(hash, b as nat));
        let prev = self.registers[j];
        if rho > prev {
            self.registers.set(j, rho);
            proof {
                assert(self@.registers[j as int] != old(self)@.registers[j as int]);
            }
            true
        } else {
            proof {
                assert(self@ =~= inserted(old(self)@, hash));
            }
            false
        }
    }

    /// Add an element: its hash picks a register and a rank as in
    /// `insert_hash`. Returns whether the estimator changed. The merge
    /// identity takes no elements.
    pub fn insert<T: std::hash::Hash + ?Sized>(&mut self, val: &T) -> (changed: bool)
        requires
            old(self).wf(),
            !old(self)@.identity,
        ensures
            final(self).wf(),
            exists|h: u64| final(self)@ == inserted(old(self)@, h),
            changed <==> final(self)@ != old(self)@,
    {
        let hash = get_hash(val);
        self.insert_hash(hash)
    }

    /// A copy of the registers.
    pub fn registers(&self) -> (r: Vec<u8>)
        ensures
            r@ == self@.registers,
    {
        copy_registers(&self.registers)
    }

    /// A copy of this estimator, with its own register array.
    pub fn clone(&self) -> (r: HLL)
        ensures
            r@ == self@,
    {
        HLL { b: self.b, m: self.m, registers: copy_registers(&self.registers), is_zero: self.is_zero }
    }

    /// Whether two estimators share a configuration and hold the same
    /// registers.
    pub fn same_as(&self, other: &HLL) -> (r: bool)
        ensures
            r <==> self@ == other@,
    {
        if self.b != other.b || self.m != other.m || self.is_zero != other.is_zero
            || self.registers.len() != other.registers.len() {
            return false;
        }
        let mut i: usize = 0;
        while i < self.registers.len()
            invariant
                i <= self.registers.len() == other.registers.len(),
                forall|k: int| 0 <= k < i ==> self.registers@[k] == other.registers@[k],
            decreases self.registers.len() - i,
        {
            if self.registers[i] != other.registers[i] {
                return false;
            }
            i = i + 1;
        }
        assert(self.registers@ =~= other.registers@);
        true
    }

    /// Combine two estimators: the identity gives back a copy of the other
    /// side; otherwise both must have the same configuration, and each
    /// register of the result is the larger of the two.
    pub fn merge(&self, other: &HLL) -> (r: Result<HLL, HllError>)
        requires
            self.wf(),
            other.wf(),
        ensures
            match r {
                Ok(h) => h.wf() && h@ == merged(self@, other@),
                Err(e) => e == HllError::IncompatibleConfiguration,
            },
            r is Ok <==> compatible(self@, other@),
    {
        if self.is_zero {
            return Ok(other.clone());
        }
        if other.is_zero {
            return Ok(self.clone());
        }
        if self.b != other.b || self.m != other.m {
            return Err(HllError::IncompatibleConfiguration);
        }
        let registers = mergeRegisters(&self.registers, &other.registers);
        let h = HLL { b: self.b, m: self.m, registers, is_zero: false };
        assert(h@ =~= merged(self@, other@));
        Ok(h)
    }
}

impl PartialEq for HLL {
    fn eq(&self, other: &HLL) -> (r: bool) {
        self.same_as(other)
    }
}

impl vstd::std_specs::cmp::PartialEqSpecImpl for HLL {
    open spec fn obeys_eq_spec() -> bool {
        true
    }

    open spec fn eq_spec(&self, other: &HLL) -> bool {
        self@ == other@
    }
}

impl Eq for HLL {}

/// Numerator of the raw estimate `E = α m² / Σ 2^-r`.
pub open spec fn raw_num(v: HllModel) -> nat {
    alpha_num(v.size) * v.size * v.size * pow2(max_rank(v.precision))
}

/// Denominator of the raw estimate `E`.
pub open spec fn raw_den(v: HllModel) -> nat {
    alpha_den(v.size) * harmonic_sum(v.registers, max_rank(v.precision))
}

/// The integers the raw estimate is made of.
pub open spec fn raw_parts(v: HllModel) -> RawEstimate {
    RawEstimate {
        alpha_num: alpha_num(v.size) as u64,
        alpha_den: alpha_den(v.size) as u64,
        registers: v.size as u64,
        harmonic_sum: harmonic_sum(v.registers, max_rank(v.precision)) as u128,
        scale: max_rank(v.precision) as u32,
    }
}

/// The estimate of a configured estimator, by range: small when
/// `E <= 5m/2` (linear counting while a register is empty, else `E`), medium
/// when `E <= 2^32 / 30` (`E`), large otherwise.
pub open spec fn estimate_of(v: HllModel) -> Estimate {
    if v.identity {
        Estimate::Empty
    } else if 2 * raw_num(v) <= 5 * v.size * raw_den(v) {
        if zero_count(v.registers) > 0 {
            Estimate::LinearCounting {
                registers: v.size as u64,
                empty: zero_count(v.registers) as u64,
            }
        } else {
            Estimate::Raw(raw_parts(v))
        }
    } else if 30 * raw_num(v) <= pow2(32) * raw_den(v) {
        Estimate::Raw(raw_parts(v))
    } else {
        Estimate::LargeRange(raw_parts(v))
    }
}

/// Two estimators can be merged: one is the identity, or both have the same
/// configuration.
pub open spec fn compatible(a: HllModel, b: HllModel) -> bool {
    a.identity || b.identity || (a.precision == b.precision && a.size == b.size)
}

/// Register-wise maximum of two register sequences of equal length.
pub open spec fn max_registers(a: Seq<u8>, b: Seq<u8>) -> Seq<u8> {
    Seq::new(a.len(), |i: int| if a[i] >= b[i] { a[i] } else { b[i] })
}

/// The merge of two compatible estimators.
pub open spec fn merged(a: HllModel, b: HllModel) -> HllModel {
    if a.identity {
        b
    } else if b.identity {
        a
    } else {
        HllModel { registers: max_registers(a.registers, b.registers), ..a }
    }
}

/// An element-for-element copy of a register array.
fn copy_registers(v: &Vec<u8>) -> (r: Vec<u8>)
    ensures
        r@ == v@,
{
    let mut r: Vec<u8> = Vec::new();
    let mut i: usize = 0;
    while i < v.len()
        invariant
            i <= v.len(),
            r@ == v@.take(i as int),
        decreases v.len() - i,
    {
        r.push(v[i]);
        i = i + 1;
        assert(r@ =~= v@.take(i as int));
    }
    assert(v@.take(v.len() as int) =~= v@);
    r
}

/// Pair up the elements of two sequences and combine each pair; the result
/// is as long as the shorter one.
#[allow(non_snake_case)]
pub fn zipWith<A: Copy, R, F: Fn(A, A) -> R>(combo: F, left: &Vec<A>, right: &Vec<A>) -> (r: Vec<R>)
    requires
        forall|i: int|
            0 <= i < left.len() && 0 <= i < right.len() ==> #[trigger] combo.requires(
                (left@[i], right@[i]),
            ),
    ensures
        r.len() == if left.len() <= right.len() {
            left.len()
        } else {
            right.len()
        },
        forall|i: int| 0 <= i < r.len() ==> combo.ensures((left@[i], right@[i]), #[trigger] r@[i]),
{
    let n: usize = if left.len() <= right.len() {
        left.len()
    } else {
        right.len()
    };
    let mut r: Vec<R> = Vec::new();
    let mut i: usize = 0;
    while i < n
        invariant
            i <= n <= left.len(),
            n <= right.len(),
            r.len() == i,
            forall|k: int|
                0 <= k < left.len() && 0 <= k < right.len() ==> #[trigger] combo.requires(
                    (left@[k], right@[k]),
                ),
            forall|k: int| 0 <= k < i ==> combo.ensures((left@[k], right@[k]), #[trigger] r@[k]),
        decreases n - i,
    {
        let x = combo(left[i], right[i]);
        r.push(x);
        i = i + 1;
    }
    r
}

/// The larger of two register values.
fn larger_of(l: u8, g: u8) -> (x: u8)
    ensures
        x == (if l >= g { l } else { g }),
{
    if l >= g {
        l
    } else {
        g
    }
}

/// Register-wise maximum of two register arrays of equal length.
#[allow(non_snake_case)]
pub fn mergeRegisters(first: &Vec<u8>, second: &Vec<u8>) -> (r: Vec<u8>)
    requires
        first.len() == second.len(),
    ensures
        r@ == max_registers(first@, second@),
{
    let r = zipWith(larger_of, first, second);
    assert(r@ =~= max_registers(first@, second@));
    r
}


/// Bounds on a configured estimator's sizes that keep the estimate's
/// integer arithmetic within 128 bits.
proof fn lemma_estimate_bounds(v: HllModel)
    requires
        v.wf(),
        !v.identity,
    ensures
        v.precision <= 32,
        v.size * pow2(max_rank(v.precision)) < pow2(66),
        v.size * pow2((max_rank(v.precision) - 32) as nat) < pow2(34),
        pow2(max_rank(v.precision)) == pow2(32) * pow2((max_rank(v.precision) - 32) as nat),
{
    lemma_index_rank_bounds(v, 0);
    lemma_bit_len_brackets(v.size);
    let b = v.precision;
    let k = max_rank(b);
    lemma_pow2_pos(k);
    lemma_pow2_pos((k - 32) as nat);
    vstd::arithmetic::mul::lemma_mul_strict_inequality(v.size as int, pow2(b + 1) as int, pow2(k) as int);
    vstd::arithmetic::power2::lemma_pow2_adds(b + 1, k);
    vstd::arithmetic::power2::lemma_pow2_adds(32, (k - 32) as nat);
    vstd::arithmetic::power2::lemma_pow2_adds(32, 34);
    let q = pow2((k - 32) as nat);
    assert(v.size * pow2(k) == pow2(32) * (v.size * q)) by (nonlinear_arith)
        requires
            pow2(k) == pow2(32) * q,
    ;
    if v.size * q >= pow2(34) {
        lemma_pow2_pos(32);
        assert(pow2(32) * (v.size * q) >= pow2(32) * pow2(34)) by (nonlinear_arith)
            requires
                v.size * q >= pow2(34),
                pow2(32) > 0,
        ;
    }
}

impl HLL {
    /// The estimate of the number of distinct elements inserted, as the
    /// range it falls in and the exact integers of its formula.
    pub fn estimate(&self) -> (r: Estimate)
        requires
            self.wf(),
        ensures
            r == estimate_of(self@),
    {
        if self.is_zero {
            return Estimate::Empty;
        }
        proof {
            lemma_estimate_bounds(self@);
            lemma_pow2_66();
        }
        let m: u64 = self.m as u64;
        let k: u32 = 65 - self.b;
        let (an, ad) = alpha(m);
        let t: u128 = scaled_harmonic_sum(&self.registers, k);
        let empty: u64 = count_zero_registers(&self.registers);
        let parts = RawEstimate { alpha_num: an, alpha_den: ad, registers: m, harmonic_sum: t, scale: k };
        proof {
            lemma_u128_one_shl(k as u128);
        }
        let p: u128 = 1u128 << (k as u128);
        let mp: u128 = m as u128 * p;
        let a: u128 = an as u128;
        let d: u128 = ad as u128;
        proof {
            vstd::arithmetic::mul::lemma_mul_upper_bound(a as int, 0x2000_0000_0000, mp as int, 0x4_0000_0000_0000_0000);
            vstd::arithmetic::mul::lemma_mul_upper_bound(d as int, 0x4000_0000_0000, t as int, 0x4_0000_0000_0000_0000);
        }
        let small_lhs: u128 = 2 * (a * mp);
        let small_rhs: u128 = 5 * (d * t);
        proof {
            let mm = m as int;
            assert(2 * raw_num(self@) == mm * small_lhs && 5 * self@.size * raw_den(self@) == mm * small_rhs)
                by (nonlinear_arith)
                requires
                    raw_num(self@) == a * mm * mm * p,
                    raw_den(self@) == d * t,
                    self@.size == mm,
                    small_lhs == 2 * (a * (mm * p)),
                    small_rhs == 5 * (d * t),
            ;
            assert(mm > 0 ==> (mm * small_lhs <= mm * small_rhs <==> small_lhs <= small_rhs))
                by (nonlinear_arith);
        }
        if small_lhs <= small_rhs {
            if empty > 0 {
                Estimate::LinearCounting { registers: m, empty }
            } else {
                Estimate::Raw(parts)
            }
        } else {
            proof {
                lemma_u128_one_shl((k - 32) as u128);
            }
            let q: u128 = 1u128 << ((k - 32) as u128);
            let mq: u128 = m as u128 * q;
            proof {
                vstd::arithmetic::mul::lemma_mul_upper_bound(a as int, 0x2000_0000_0000, m as int, 0x1_0000_0000);
                vstd::arithmetic::mul::lemma_mul_upper_bound((a * m) as int, 0x2000_0000_0000_0000_0000, mq as int, 0x4_0000_0000);
            }
            let mid_lhs: u128 = 30 * (a * m as u128 * mq);
            let mid_rhs: u128 = d * t;
            proof {
                let mm = m as int;
                let c = pow2(32) as int;
                assert(30 * raw_num(self@) == c * mid_lhs && c * raw_den(self@) == c * mid_rhs)
                    by (nonlinear_arith)
                    requires
                        raw_num(self@) == a * mm * mm * p,
                        raw_den(self@) == d * t,
                        p == c * q,
                        mid_lhs == 30 * (a * mm * (mm * q)),
                        mid_rhs == d * t,
                ;
                assert(c > 0 ==> (c * mid_lhs <= c * mid_rhs <==> mid_lhs <= mid_rhs))
                    by (nonlinear_arith);
            }
            if mid_lhs <= mid_rhs {
                Estimate::Raw(parts)
            } else {
                Estimate::LargeRange(parts)
            }
        }
    }
}


/// The bias constant α for `m` registers, as numerator and denominator.
pub fn alpha(m: u64) -> (r: (u64, u64))
    requires
        m <= MAX_REGISTER_COUNT,
    ensures
        r.0 == alpha_num(m as nat),
        r.1 == alpha_den(m as nat),
        r.0 <= 0x2000_0000_0000,
        r.1 <= 0x4000_0000_0000,
{
    match m {
        16 => (673, 1000),
        32 => (697, 1000),
        64 => (709, 1000),
        _ => (7213 * m, 10000 * m + 10790),
    }
}

impl HLL {
    /// `b`: the number of leading hash bits that select a register.
    pub fn precision(&self) -> (r: u32)
        ensures
            r == self@.precision,
    {
        self.b
    }

    /// `m`: the number of registers.
    pub fn register_count(&self) -> (r: usize)
        ensures
            r == self@.size,
    {
        self.m
    }

    /// The bias constant α of this configuration, as numerator and
    /// denominator; `(0, 1)` for the identity.
    pub fn bias_constant(&self) -> (r: (u64, u64))
        requires
            self.wf(),
        ensures
            self@.identity ==> r == (0u64, 1u64),
            !self@.identity ==> r.0 == alpha_num(self@.size) && r.1 == alpha_den(self@.size),
    {
        if self.is_zero {
            (0, 1)
        } else {
            alpha(self.m as u64)
        }
    }
}

} // verus!
