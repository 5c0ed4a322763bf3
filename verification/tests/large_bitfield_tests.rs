use fast_bitfield::{FastBitField, LargeBitField, LARGE_BIT_FIELD_BIT_SIZE, SMALL_BIT_FIELD_BIT_SIZE};

/// The lowest set bit found by a naive linear scan over every index.
fn naive_lowest(field: &LargeBitField) -> Option<usize> {
    for i in 0..LARGE_BIT_FIELD_BIT_SIZE {
        if field.test_bit(i) == Some(true) {
            return Some(i);
        }
    }
    None
}

/// The highest set bit found by a naive linear scan over every index.
fn naive_highest(field: &LargeBitField) -> Option<usize> {
    for i in (0..LARGE_BIT_FIELD_BIT_SIZE).rev() {
        if field.test_bit(i) == Some(true) {
            return Some(i);
        }
    }
    None
}

/// Every flag, read through `test_bit`, as one observable snapshot.
fn snapshot(field: &LargeBitField) -> Vec<bool> {
    (0..LARGE_BIT_FIELD_BIT_SIZE).map(|i| field.test_bit(i) == Some(true)).collect()
}

/// Checks the hierarchical invariant from outside: each group reports
/// non-empty through the summary exactly when a bit of the group is set.
fn assert_summary_consistent(field: &LargeBitField) {
    for g in 0..SMALL_BIT_FIELD_BIT_SIZE {
        let group_has_bit =
            (0..SMALL_BIT_FIELD_BIT_SIZE).any(|o| field.test_bit(g * 64 + o) == Some(true));
        assert_eq!(field.test_group(g), Some(group_has_bit));
    }
}

#[test]
fn large_number_of_bits() {
    assert_eq!(LargeBitField::get_number_of_bits(), 4096);
}

#[test]
fn large_set_then_test() {
    let mut field = LargeBitField::new();
    for i in [0usize, 1, 63, 64, 65, 1000, 4094, 4095] {
        field.set_bit(i);
        assert_eq!(field.test_bit(i), Some(true));
    }
    assert_eq!(field.test_bit(2), Some(false));
    assert_eq!(field.test_bit(128), Some(false));
}

#[test]
fn large_clear_then_test() {
    let mut field = LargeBitField::new();
    field.set_bit(130);
    field.set_bit(131);
    field.clear_bit(130);
    assert_eq!(field.test_bit(130), Some(false));
    assert_eq!(field.test_bit(131), Some(true));
}

#[test]
fn large_out_of_range_is_silent_noop() {
    let mut field = LargeBitField::new();
    field.set_bit(77);
    let before = snapshot(&field);
    field.set_bit(4096);
    field.set_bit(usize::MAX);
    field.clear_bit(4096);
    field.set_group(64, u64::MAX);
    field.clear_group(64, u64::MAX);
    assert_eq!(snapshot(&field), before);
    assert_eq!(field.test_bit(4096), None);
    assert_eq!(field.test_group(64), None);
}

#[test]
fn large_is_empty_group_summary_cross_check() {
    let mut field = LargeBitField::new();
    assert!(field.is_empty());
    assert_summary_consistent(&field);
    field.set_bit(200);
    assert!(!field.is_empty());
    assert_summary_consistent(&field);
    field.clear_bit(200);
    assert!(field.is_empty());
    assert_summary_consistent(&field);
}

#[test]
fn large_lowest_highest_match_naive_scan() {
    let patterns: [&[usize]; 5] = [
        &[0, 4095],
        &[70, 700, 4000],
        &[63, 64],
        &[4095],
        &[0, 1, 2],
    ];
    for bits in patterns {
        let mut field = LargeBitField::new();
        for &i in bits {
            field.set_bit(i);
        }
        let low = field.get_lowest_set_bit();
        let high = field.get_highest_set_bit();
        assert_eq!(low, naive_lowest(&field));
        assert_eq!(high, naive_highest(&field));
        assert!(low.unwrap() <= high.unwrap());
        assert_eq!(field.get_lowest_set_bit_unchecked(), low.unwrap());
        assert_eq!(field.get_highest_set_bit_unchecked(), high.unwrap());
    }
}

#[test]
fn large_summary_invariant_after_mixed_operations() {
    let mut field = LargeBitField::new();
    field.set_bit(0);
    assert_summary_consistent(&field);
    field.set_bit(64);
    assert_summary_consistent(&field);
    field.clear_bit(64);
    assert_summary_consistent(&field);
    field.set_group(5, 0xdead_beef);
    assert_summary_consistent(&field);
    field.clear_group(5, u64::MAX);
    assert_summary_consistent(&field);
    field.set_group(63, 1 << 63);
    assert_summary_consistent(&field);
    field.clear_bit(4095);
    assert_summary_consistent(&field);
    field.set_group(7, 0);
    assert_summary_consistent(&field);
    assert_eq!(field.test_group(7), Some(false));
}

#[test]
fn large_set_idempotent() {
    let mut once = LargeBitField::new();
    once.set_bit(999);
    let mut twice = LargeBitField::new();
    twice.set_bit(999);
    twice.set_bit(999);
    assert_eq!(snapshot(&once), snapshot(&twice));
    assert_summary_consistent(&twice);
}

#[test]
fn large_clear_on_clear_is_noop() {
    let mut field = LargeBitField::new();
    field.set_bit(321);
    let before = snapshot(&field);
    field.clear_bit(322);
    field.clear_bit(322);
    assert_eq!(snapshot(&field), before);
    assert_summary_consistent(&field);
}

#[test]
fn large_group_operations_exact_values() {
    let mut field = LargeBitField::new();
    field.set_group(3, 0b1001);
    assert_eq!(field.test_bit(3 * 64), Some(true));
    assert_eq!(field.test_bit(3 * 64 + 1), Some(false));
    assert_eq!(field.test_bit(3 * 64 + 3), Some(true));
    assert_eq!(field.test_group(3), Some(true));
    assert_eq!(field.test_group_unchecked(3), true);
    assert_eq!(field.test_group(2), Some(false));
    field.clear_group(3, 0b0001);
    assert_eq!(field.test_bit(3 * 64), Some(false));
    assert_eq!(field.test_bit(3 * 64 + 3), Some(true));
    assert_eq!(field.test_group(3), Some(true));
    field.clear_group_unchecked(3, u64::MAX);
    assert_eq!(field.test_group(3), Some(false));
    assert!(field.is_empty());
}

#[test]
fn large_set_field_and_clear_field() {
    let mut field = LargeBitField::new();
    let mut values = [0u64; SMALL_BIT_FIELD_BIT_SIZE];
    values[0] = 0b10;
    values[63] = 1 << 63;
    field.set_field(&values);
    assert_eq!(field.test_bit(1), Some(true));
    assert_eq!(field.test_bit(4095), Some(true));
    assert_eq!(field.get_lowest_set_bit(), Some(1));
    assert_eq!(field.get_highest_set_bit(), Some(4095));
    assert_summary_consistent(&field);

    let clear_everything = [u64::MAX; SMALL_BIT_FIELD_BIT_SIZE];
    field.clear_field(&clear_everything);
    assert!(field.is_empty());
    assert_summary_consistent(&field);
}

#[test]
fn large_unchecked_variants_match_checked() {
    let mut field = LargeBitField::new();
    field.set_bit_unchecked(129);
    assert_eq!(field.test_bit_unchecked(129), true);
    assert_eq!(field.test_bit(129), Some(true));
    field.set_group_unchecked(4, 0b100);
    assert_eq!(field.test_bit(4 * 64 + 2), Some(true));
    field.clear_bit_unchecked(129);
    assert_eq!(field.test_bit_unchecked(129), false);
    field.clear_group_unchecked(4, 0b100);
    assert!(field.is_empty());
}

#[test]
fn large_randomized_sequence_matches_naive_scan() {
    // A fixed linear-congruential sequence drives set/clear operations; after
    // every step the two-level queries must agree with the naive scanner.
    let mut state: u64 = 0x2545_f491_4f6c_dd1d;
    let mut field = LargeBitField::new();
    for step in 0..200 {
        state = state.wrapping_mul(6364136223846793005).wrapping_add(1442695040888963407);
        let index = (state >> 16) as usize % LARGE_BIT_FIELD_BIT_SIZE;
        if step % 3 == 0 {
            field.clear_bit(index);
        } else {
            field.set_bit(index);
        }
        let low = field.get_lowest_set_bit();
        let high = field.get_highest_set_bit();
        assert_eq!(low, naive_lowest(&field));
        assert_eq!(high, naive_highest(&field));
        if let (Some(l), Some(h)) = (low, high) {
            assert!(l <= h);
        }
        assert_summary_consistent(&field);
    }
}
