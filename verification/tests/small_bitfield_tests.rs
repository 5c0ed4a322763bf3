use fast_bitfield::{FastBitField, SmallBitField, SMALL_BIT_FIELD_BIT_SIZE};

/// The lowest set bit found by a naive linear scan over every index.
fn naive_lowest(field: &SmallBitField) -> Option<usize> {
    for i in 0..SMALL_BIT_FIELD_BIT_SIZE {
        if field.test_bit(i) == Some(true) {
            return Some(i);
        }
    }
    None
}

/// The highest set bit found by a naive linear scan over every index.
fn naive_highest(field: &SmallBitField) -> Option<usize> {
    for i in (0..SMALL_BIT_FIELD_BIT_SIZE).rev() {
        if field.test_bit(i) == Some(true) {
            return Some(i);
        }
    }
    None
}

/// Every flag, read through `test_bit`, as one observable snapshot.
fn snapshot(field: &SmallBitField) -> Vec<bool> {
    (0..SMALL_BIT_FIELD_BIT_SIZE).map(|i| field.test_bit(i) == Some(true)).collect()
}

#[test]
fn small_number_of_bits() {
    assert_eq!(SmallBitField::get_number_of_bits(), 64);
}

#[test]
fn small_set_then_test() {
    let mut field = SmallBitField::new();
    for i in [0usize, 1, 5, 31, 62, 63] {
        field.set_bit(i);
        assert_eq!(field.test_bit(i), Some(true));
    }
    assert_eq!(field.test_bit(2), Some(false));
}

#[test]
fn small_clear_then_test() {
    let mut field = SmallBitField::new();
    field.set_bit(10);
    assert_eq!(field.test_bit(10), Some(true));
    field.clear_bit(10);
    assert_eq!(field.test_bit(10), Some(false));
}

#[test]
fn small_out_of_range_is_silent_noop() {
    let mut field = SmallBitField::new();
    field.set_bit(7);
    let before = snapshot(&field);
    field.set_bit(64);
    field.set_bit(1000);
    field.clear_bit(64);
    field.clear_bit(usize::MAX);
    assert_eq!(snapshot(&field), before);
    assert_eq!(field.test_bit(64), None);
    assert_eq!(field.test_bit(1000), None);
}

#[test]
fn small_is_empty_matches_exhaustive_scan() {
    let mut field = SmallBitField::new();
    assert!(field.is_empty());
    assert!(snapshot(&field).iter().all(|&b| !b));
    field.set_bit(42);
    assert!(!field.is_empty());
    assert!(snapshot(&field).iter().any(|&b| b));
    field.clear_bit(42);
    assert!(field.is_empty());
    assert!(snapshot(&field).iter().all(|&b| !b));
}

#[test]
fn small_lowest_highest_match_naive_scan() {
    let patterns: [&[usize]; 6] = [
        &[0],
        &[63],
        &[3, 17, 63],
        &[5, 6, 7],
        &[0, 1, 2, 3, 62, 63],
        &[31],
    ];
    for bits in patterns {
        let mut field = SmallBitField::new();
        for &i in bits {
            field.set_bit(i);
        }
        let low = field.get_lowest_set_bit();
        let high = field.get_highest_set_bit();
        assert_eq!(low, naive_lowest(&field));
        assert_eq!(high, naive_highest(&field));
        assert!(low.unwrap() <= high.unwrap());
        assert_eq!(field.get_lowest_set_bit_unchecked(), low.unwrap());
        assert_eq!(field.get_highest_set_bit_unchecked(), high.unwrap());
    }
}

#[test]
fn small_lowest_highest_track_mutation() {
    let mut field = SmallBitField::new();
    assert_eq!(field.get_lowest_set_bit(), None);
    assert_eq!(field.get_highest_set_bit(), None);
    field.set_bit(0);
    assert_eq!(field.get_lowest_set_bit(), Some(0));
    assert_eq!(field.get_highest_set_bit(), Some(0));
    field.set_bit(1);
    assert_eq!(field.get_lowest_set_bit(), Some(0));
    assert_eq!(field.get_highest_set_bit(), Some(1));
    field.clear_bit(0);
    assert_eq!(field.get_lowest_set_bit(), Some(1));
    assert_eq!(field.get_highest_set_bit(), Some(1));
}

#[test]
fn small_set_idempotent() {
    let mut once = SmallBitField::new();
    once.set_bit(13);
    let mut twice = SmallBitField::new();
    twice.set_bit(13);
    twice.set_bit(13);
    assert_eq!(snapshot(&once), snapshot(&twice));
}

#[test]
fn small_clear_on_clear_is_noop() {
    let mut field = SmallBitField::new();
    field.set_bit(20);
    let before = snapshot(&field);
    field.clear_bit(21);
    field.clear_bit(21);
    assert_eq!(snapshot(&field), before);
}

#[test]
fn small_set_field_sets_mask() {
    let mut field = SmallBitField::new();
    field.set_field(0b1010);
    assert_eq!(field.test_bit(0), Some(false));
    assert_eq!(field.test_bit(1), Some(true));
    assert_eq!(field.test_bit(2), Some(false));
    assert_eq!(field.test_bit(3), Some(true));
    assert_eq!(field.get_lowest_set_bit(), Some(1));
    assert_eq!(field.get_highest_set_bit(), Some(3));
}

#[test]
fn small_clear_field_clears_mask() {
    let mut field = SmallBitField::new();
    field.set_field(u64::MAX);
    assert_eq!(field.get_lowest_set_bit(), Some(0));
    assert_eq!(field.get_highest_set_bit(), Some(63));
    field.clear_field(u64::MAX);
    assert!(field.is_empty());
    let mut partial = SmallBitField::new();
    partial.set_field(0b1111);
    partial.clear_field(0b0101);
    assert_eq!(field.test_bit(0), Some(false));
    assert_eq!(partial.test_bit(0), Some(false));
    assert_eq!(partial.test_bit(1), Some(true));
    assert_eq!(partial.test_bit(2), Some(false));
    assert_eq!(partial.test_bit(3), Some(true));
}

#[test]
fn small_unchecked_variants_match_checked() {
    let mut field = SmallBitField::new();
    field.set_bit_unchecked(9);
    assert_eq!(field.test_bit_unchecked(9), true);
    assert_eq!(field.test_bit(9), Some(true));
    field.clear_bit_unchecked(9);
    assert_eq!(field.test_bit_unchecked(9), false);
    assert!(field.is_empty());
}

#[test]
fn small_randomized_sequence_matches_naive_scan() {
    // A fixed linear-congruential sequence drives set/clear operations; after
    // every step the word-scan queries must agree with the naive scanner.
    let mut state: u64 = 0x9e37_79b9_7f4a_7c15;
    let mut field = SmallBitField::new();
    for step in 0..200 {
        state = state.wrapping_mul(6364136223846793005).wrapping_add(1442695040888963407);
        let index = (state >> 16) as usize % SMALL_BIT_FIELD_BIT_SIZE;
        if step % 3 == 0 {
            field.clear_bit(index);
        } else {
            field.set_bit(index);
        }
        let low = field.get_lowest_set_bit();
        let high = field.get_highest_set_bit();
        assert_eq!(low, naive_lowest(&field));
        assert_eq!(high, naive_highest(&field));
        if let (Some(l), Some(h)) = (low, high) {
            assert!(l <= h);
        }
    }
}
