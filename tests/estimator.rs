use basichll::bits::leftmost_one_bit;
use basichll::estimate::{Estimate, RawEstimate};
use basichll::hll::{mergeRegisters, zipWith, HllError, HLL, MAX_REGISTER_COUNT};

/// Builds an estimator for a target standard error, `m = floor((1.04 / error)^2)`.
fn new(error: f64) -> HLL {
    assert!(error > 0.0 && error < 1.0);
    let m = ((1.04 / error) * (1.04 / error)).floor() as usize;
    HLL::from_register_count(m).unwrap()
}

fn raw_value(p: RawEstimate) -> f64 {
    let m = p.registers as f64;
    (p.alpha_num as f64 / p.alpha_den as f64) * m * m * 2f64.powi(p.scale as i32)
        / p.harmonic_sum as f64
}

/// The estimate as a number.
fn count(h: &HLL) -> f64 {
    match h.estimate() {
        Estimate::Empty => 0.0,
        Estimate::LinearCounting { registers, empty } => {
            let m = registers as f64;
            m * (m / empty as f64).ln()
        }
        Estimate::Raw(p) => raw_value(p),
        Estimate::LargeRange(p) => {
            let two_to_32 = 2f64.powi(32);
            -two_to_32 * (1.0 - raw_value(p) / two_to_32).ln()
        }
    }
}

fn add(a: &HLL, b: &HLL) -> HLL {
    a.merge(b).unwrap()
}

#[test]
fn adding_two_empty_hlls_results_in_an_empty_hll() {
    let first = new(0.26);
    let second = new(0.26);
    let third = add(&first, &second);

    assert_eq!(third.registers().iter().filter(|&r| *r != 0).count(), 0);
}

#[test]
fn adding_together_two_hlls_preserves_the_sum_of_their_counts() {
    let mut first = new(0.0040625);
    let mut second = new(0.0040625);

    first.insert(&"a");
    first.insert(&"b");
    first.insert(&"c");
    second.insert(&"d");
    second.insert(&"e");
    second.insert(&"f");

    assert_eq!(count(&first).round(), 3.0);
    assert_eq!(count(&second).round(), 3.0);

    let third = add(&first, &second);
    assert_eq!(count(&third).round(), 6.0);
}

#[test]
fn add_together_two_hlls_doesnt_double_count_duplicate_elements() {
    let mut first = new(0.0040625);
    let mut second = new(0.0040625);

    first.insert(&"a");
    first.insert(&"b");
    first.insert(&"c");
    second.insert(&"a");
    second.insert(&"d");
    second.insert(&"e");

    assert_eq!(count(&first).round(), 3.0);
    assert_eq!(count(&second).round(), 3.0);

    let third = add(&first, &second);
    assert_eq!(count(&third).round(), 5.0);
}

#[test]
fn monoid_laws_should_hold_for_hll() {
    let zero = HLL::empty();
    let mut first = new(0.0040625);
    let mut second = new(0.0040625);
    let mut third = new(0.0040625);

    first.insert(&"foo");
    second.insert(&"bar");
    third.insert(&"quux");

    let left_zero = add(&first.clone(), &zero.clone());
    let right_zero = add(&zero.clone(), &first.clone());

    assert_eq!(left_zero, first);
    assert_eq!(right_zero, first);

    let left_associate = add(&add(&first.clone(), &second.clone()), &third.clone());
    let right_associate = add(&first.clone(), &add(&second.clone(), &third.clone()));

    assert_eq!(left_associate, right_associate);
}

#[test]
fn a_hll_can_count_small_numbers() {
    let mut hll = new(0.0040625);

    assert!(hll.insert(&1));
    assert!(hll.insert(&2));
    assert!(hll.insert(&3));
    assert!(hll.insert(&1) == false);
    assert!(hll.insert(&2) == false);

    assert_eq!(count(&hll).round(), 3.0);
}

#[test]
fn a_hll_can_count_heterogenuous_items() {
    let mut hll = new(0.0040625);

    assert!(hll.insert(&1));
    assert!(hll.insert(&"foo"));
    assert!(hll.insert(&2));
    assert!(hll.insert(&"bar"));

    assert_eq!(count(&hll).round(), 4.0);
}

#[test]
fn two_empty_hlls_are_equal() {
    let first = HLL::one_hundred_twenty_eight();
    let second = HLL::one_hundred_twenty_eight();

    assert!(first == second);
}

#[test]
#[should_panic]
fn a_non_empty_hll_is_not_equal_to_an_empty_one() {
    let mut first = HLL::one_hundred_twenty_eight();
    let second = HLL::one_hundred_twenty_eight();

    first.insert(&"foo");

    assert!(first == second);
}

#[test]
#[should_panic]
fn adding_two_different_elements_to_two_different_hlls_produces_differences() {
    let mut first = HLL::one_hundred_twenty_eight();
    let mut second = HLL::one_hundred_twenty_eight();

    first.insert(&"foo");
    second.insert(&"bar");

    assert!(first == second);
}

#[test]
fn can_estimate_a_large_sequence_of_floating_points() {
    let limit = 2i64.pow(20);
    let mut store = new(0.0040625);
    let mut counter = 0i64;

    loop {
        store.insert(&counter);
        counter += 1;
        if counter > limit {
            break;
        }
    }

    let count = count(&store);
    let error = 1.04 / 65536.0f64.sqrt();

    if (1.0 - (count / limit as f64)).abs() > error {
        panic!(
            "expected {} to be within {} of {} (but was {})",
            count,
            error,
            limit,
            1.0 - (count / limit as f64).abs()
        );
    }
}

// Construction.

#[test]
fn register_count_follows_the_target_error() {
    assert_eq!(new(0.0040625).registers().len(), 65536);
    assert_eq!(new(0.26).registers().len(), 16);
    assert_eq!(HLL::one_hundred_twenty_eight().registers().len(), 128);
    assert_eq!(new(0.09192).registers().len(), 128);
    assert!(new(0.09192) == HLL::one_hundred_twenty_eight());
}

#[test]
fn zero_registers_is_an_invalid_configuration() {
    assert_eq!(
        HLL::from_register_count(0).err(),
        Some(HllError::InvalidConfiguration)
    );
}

#[test]
fn too_many_registers_is_an_invalid_configuration() {
    let m = (MAX_REGISTER_COUNT + 1) as usize;
    assert_eq!(
        HLL::from_register_count(m).err(),
        Some(HllError::InvalidConfiguration)
    );
}

#[test]
fn merging_different_configurations_is_refused() {
    let a = HLL::from_register_count(16).unwrap();
    let b = HLL::from_register_count(32).unwrap();
    assert_eq!(a.merge(&b).err(), Some(HllError::IncompatibleConfiguration));
}

// Leftmost set bit.

#[test]
fn leftmost_one_bit_of_zero_is_the_full_width() {
    assert_eq!(leftmost_one_bit(0), 64);
}

#[test]
fn leftmost_one_bit_counts_from_the_top() {
    assert_eq!(leftmost_one_bit(1), 63);
    assert_eq!(leftmost_one_bit(u64::MAX), 0);
    assert_eq!(leftmost_one_bit(1 << 40), 23);
}

// Insertion by hash: 16 registers, 4 index bits.

#[test]
fn a_hash_with_zero_low_bits_gets_the_largest_rank() {
    let mut h = HLL::from_register_count(16).unwrap();
    assert!(h.insert_hash(0));
    assert_eq!(h.registers()[0], 61);
    assert!(!h.insert_hash(0));
}

#[test]
fn top_bits_pick_the_register_and_low_bits_the_rank() {
    let mut h = HLL::from_register_count(16).unwrap();
    assert!(h.insert_hash(0xF000_0000_0000_0001));
    assert_eq!(h.registers()[15], 60);
    assert!(h.insert_hash(0x3800_0000_0000_0000));
    assert_eq!(h.registers()[3], 1);
    // a lower rank leaves the register as it is
    assert!(!h.insert_hash(0xF800_0000_0000_0000));
    assert_eq!(h.registers()[15], 60);
}

#[test]
fn a_single_register_uses_the_whole_hash_for_the_rank() {
    let mut h = HLL::from_register_count(1).unwrap();
    assert!(h.insert_hash(1));
    assert_eq!(h.registers(), vec![64]);
    assert!(h.insert_hash(0));
    assert_eq!(h.registers(), vec![65]);
}

#[test]
fn inserting_an_element_changes_its_register() {
    let mut h = HLL::one_hundred_twenty_eight();
    assert!(h.insert(&"foo"));
    assert_eq!(h.registers().iter().filter(|&r| *r != 0).count(), 1);
}

// Estimation ranges.

#[test]
fn a_fresh_estimator_is_in_the_linear_counting_range() {
    let h = HLL::from_register_count(16).unwrap();
    assert_eq!(
        h.estimate(),
        Estimate::LinearCounting { registers: 16, empty: 16 }
    );
    assert_eq!(count(&h), 0.0);
}

#[test]
fn the_identity_estimates_nothing() {
    assert_eq!(HLL::empty().estimate(), Estimate::Empty);
}

#[test]
fn small_range_with_no_empty_register_uses_the_raw_estimate() {
    let mut h = HLL::from_register_count(16).unwrap();
    for j in 0..16u64 {
        h.insert_hash((j << 60) | (1 << 59));
    }
    let expected = RawEstimate {
        alpha_num: 673,
        alpha_den: 1000,
        registers: 16,
        harmonic_sum: 1u128 << 64,
        scale: 61,
    };
    assert_eq!(h.estimate(), Estimate::Raw(expected));
    assert!((count(&h) - 21.536).abs() < 1e-9);
}

#[test]
fn medium_range_uses_the_raw_estimate() {
    let mut h = HLL::from_register_count(16).unwrap();
    for j in 0..16u64 {
        h.insert_hash((j << 60) | (1 << 57));
    }
    let expected = RawEstimate {
        alpha_num: 673,
        alpha_den: 1000,
        registers: 16,
        harmonic_sum: 16u128 << 58,
        scale: 61,
    };
    assert_eq!(h.estimate(), Estimate::Raw(expected));
    assert!((count(&h) - 86.144).abs() < 1e-9);
}

#[test]
fn large_range_applies_the_collision_correction() {
    let mut h = HLL::from_register_count(16).unwrap();
    for j in 0..16u64 {
        h.insert_hash((j << 60) | 1);
    }
    match h.estimate() {
        Estimate::LargeRange(p) => {
            assert_eq!(p.harmonic_sum, 16 * 2);
            assert_eq!(p.scale, 61);
        }
        other => panic!("expected the large range, got {:?}", other),
    }
}

#[test]
fn bias_constant_follows_the_register_count() {
    let h = HLL::from_register_count(128).unwrap();
    match h.estimate() {
        Estimate::LinearCounting { registers, empty } => {
            assert_eq!((registers, empty), (128, 128));
        }
        other => panic!("expected linear counting, got {:?}", other),
    }
    let mut h = HLL::from_register_count(128).unwrap();
    for j in 0..128u64 {
        h.insert_hash((j << 57) | (1 << 56));
    }
    match h.estimate() {
        Estimate::Raw(p) => {
            assert_eq!((p.alpha_num, p.alpha_den), (7213 * 128, 10000 * 128 + 10790));
        }
        other => panic!("expected the raw estimate, got {:?}", other),
    }
}

// Laws on concrete values.

#[test]
fn inserting_twice_leaves_the_first_result() {
    let mut h = new(0.0040625);
    h.insert(&"foo");
    let once = h.registers();
    assert!(!h.insert(&"foo"));
    assert_eq!(h.registers(), once);
}

#[test]
fn registers_never_decrease() {
    let mut h = HLL::one_hundred_twenty_eight();
    let mut before = h.registers();
    for i in 0..500u32 {
        h.insert(&i);
        let after = h.registers();
        assert!(before.iter().zip(after.iter()).all(|(b, a)| a >= b));
        before = after;
    }
}

#[test]
fn merge_is_commutative() {
    let mut a = HLL::one_hundred_twenty_eight();
    let mut b = HLL::one_hundred_twenty_eight();
    for i in 0..50u32 {
        a.insert(&i);
        b.insert(&(i * 7 + 3));
    }
    assert_eq!(add(&a, &b), add(&b, &a));
}

#[test]
fn merge_is_the_union_of_the_inserted_sets() {
    let mut a = HLL::one_hundred_twenty_eight();
    let mut b = HLL::one_hundred_twenty_eight();
    let mut both = HLL::one_hundred_twenty_eight();
    for i in 0..40u32 {
        a.insert(&i);
        both.insert(&i);
    }
    for i in 30..90u32 {
        b.insert(&i);
        both.insert(&i);
    }
    assert_eq!(add(&a, &b).registers(), both.registers());
    assert_eq!(add(&a, &b), both);
}

#[test]
fn merge_takes_the_larger_register() {
    assert_eq!(mergeRegisters(&vec![1, 5, 0], &vec![3, 2, 0]), vec![3, 5, 0]);
    assert_eq!(
        zipWith(|l: u8, r: u8| l.wrapping_add(r), &vec![1, 2, 3], &vec![10, 20]),
        vec![11, 22]
    );
}

#[test]
fn clone_is_equal_and_independent() {
    let mut a = HLL::one_hundred_twenty_eight();
    a.insert(&"x");
    let b = a.clone();
    assert!(a == b);
    a.insert(&"y");
    a.insert(&"z");
    assert!(a != b);
}

#[test]
fn small_range_estimate_of_sixty_thousand_distinct_words_is_close() {
    let mut store = new(0.0040625);
    let actual = 60000.0f64;
    for i in 0..60000u32 {
        store.insert(&format!("word-{}", i));
    }
    let count = count(&store);
    let error = 1.04 / 65536.0f64.sqrt();
    assert!(
        (1.0 - (count / actual)) <= error,
        "expected {} to be within {} of {}",
        count,
        error,
        actual
    );
}
