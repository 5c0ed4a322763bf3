//! The flat bitfield: one 64-bit word, one flag per bit.

use vstd::prelude::*;

verus! {

use crate::{
    FastBitField, SMALL_BIT_FIELD_BIT_SIZE, find_highest_set_bit, find_lowest_set_bit,
    lemma_and_not_word_bits, lemma_clear_mask_bits, lemma_nonzero_word_has_bit,
    lemma_or_mask_bits, lemma_or_word_bits, lemma_word_bits_ext, lemma_zero_word_no_bits, nth_bit,
};

/// A flat fast bitfield holding `SMALL_BIT_FIELD_BIT_SIZE` flags in a single
/// word, so that every operation is a couple of word operations.
pub struct SmallBitField {
    /// Holds the bitfield state: bit `i` set means flag `i` is set.
    bitfield: u64,
}

impl SmallBitField {
    /// The backing word.
    pub closed spec fn word(self) -> u64 {
        self.bitfield
    }

    /// Creates a new, empty `SmallBitField`.
    pub fn new() -> (r: SmallBitField)
        ensures
            r.wf(),
            r.word() == 0,
            forall|j: int| 0 <= j < SMALL_BIT_FIELD_BIT_SIZE ==> !r.flags()[j],
    {
        let r = SmallBitField { bitfield: 0 };
        proof {
            assert forall|j: int| 0 <= j < SMALL_BIT_FIELD_BIT_SIZE implies !r.flags()[j] by {
                lemma_zero_word_no_bits(j as u64);
            }
        }
        r
    }

    /// Sets every flag whose bit is set in `field`, in one word operation.
    pub fn set_field(&mut self, field: u64)
        ensures
            final(self).word() == old(self).word() | field,
            forall|j: int|
                0 <= j < SMALL_BIT_FIELD_BIT_SIZE ==> final(self).flags()[j] == (old(
                    self,
                ).flags()[j] || nth_bit(field, j as u64)),
    {
        self.bitfield = self.bitfield | field;
        proof {
            assert forall|j: int|
                0 <= j < SMALL_BIT_FIELD_BIT_SIZE implies self.flags()[j] == (old(
                self,
            ).flags()[j] || nth_bit(field, j as u64)) by {
                lemma_or_word_bits(old(self).word(), field, j as u64);
            }
        }
    }

    /// Clears every flag whose bit is set in `field`, in one word operation.
    pub fn clear_field(&mut self, field: u64)
        ensures
            final(self).word() == old(self).word() & !field,
            forall|j: int|
                0 <= j < SMALL_BIT_FIELD_BIT_SIZE ==> final(self).flags()[j] == (old(
                    self,
                ).flags()[j] && !nth_bit(field, j as u64)),
    {
        self.bitfield = self.bitfield & !field;
        proof {
            assert forall|j: int|
                0 <= j < SMALL_BIT_FIELD_BIT_SIZE implies self.flags()[j] == (old(
                self,
            ).flags()[j] && !nth_bit(field, j as u64)) by {
                lemma_and_not_word_bits(old(self).word(), field, j as u64);
            }
        }
    }
}

impl FastBitField for SmallBitField {
    open spec fn spec_number_of_bits() -> usize {
        SMALL_BIT_FIELD_BIT_SIZE
    }

    open spec fn wf(self) -> bool {
        true
    }

    open spec fn flags(self) -> Seq<bool> {
        Seq::new(SMALL_BIT_FIELD_BIT_SIZE as nat, |i: int| nth_bit(self.word(), i as u64))
    }

    proof fn lemma_flags_len(s: Self) {
    }

    proof fn lemma_flags_injective(a: Self, b: Self) {
        assert forall|j: u64| j < 64 implies nth_bit(a.word(), j) == nth_bit(b.word(), j) by {
            assert(a.flags()[j as int] == nth_bit(a.word(), j));
            assert(b.flags()[j as int] == nth_bit(b.word(), j));
            assert(a.flags()[j as int] == b.flags()[j as int]);
        }
        lemma_word_bits_ext(a.word(), b.word());
    }

    fn get_number_of_bits() -> usize {
        SMALL_BIT_FIELD_BIT_SIZE
    }

    fn set_bit(&mut self, index: usize) {
        if index < SMALL_BIT_FIELD_BIT_SIZE {
            self.bitfield = self.bitfield | (1u64 << (index as u64));
            proof {
                assert forall|j: int|
                    0 <= j < SMALL_BIT_FIELD_BIT_SIZE implies self.flags()[j] == old(
                    self,
                ).flags().update(index as int, true)[j] by {
                    lemma_or_mask_bits(old(self).word(), index as u64, j as u64);
                }
                assert(self.flags() =~= old(self).flags().update(index as int, true));
            }
        }
    }

    fn clear_bit(&mut self, index: usize) {
        if index < SMALL_BIT_FIELD_BIT_SIZE {
            self.bitfield = self.bitfield & !(1u64 << (index as u64));
            proof {
                assert forall|j: int|
                    0 <= j < SMALL_BIT_FIELD_BIT_SIZE implies self.flags()[j] == old(
                    self,
                ).flags().update(index as int, false)[j] by {
                    lemma_clear_mask_bits(old(self).word(), index as u64, j as u64);
                }
                assert(self.flags() =~= old(self).flags().update(index as int, false));
            }
        }
    }

    fn get_lowest_set_bit(&self) -> (r: Option<usize>) {
        if self.is_empty() {
            return None;
        }
        Some(self.get_lowest_set_bit_unchecked())
    }

    fn get_highest_set_bit(&self) -> (r: Option<usize>) {
        if self.is_empty() {
            return None;
        }
        Some(self.get_highest_set_bit_unchecked())
    }

    fn get_lowest_set_bit_unchecked(&self) -> (r: usize) {
        proof {
            let j = choose|j: int| 0 <= j < self.flags().len() && self.flags()[j];
            if self.word() == 0 {
                lemma_zero_word_no_bits(j as u64);
            }
        }
        find_lowest_set_bit(self.bitfield)
    }

    fn get_highest_set_bit_unchecked(&self) -> (r: usize) {
        proof {
            let j = choose|j: int| 0 <= j < self.flags().len() && self.flags()[j];
            if self.word() == 0 {
                lemma_zero_word_no_bits(j as u64);
            }
        }
        find_highest_set_bit(self.bitfield)
    }

    fn test_bit(&self, index: usize) -> (r: Option<bool>) {
        if index < SMALL_BIT_FIELD_BIT_SIZE {
            return Some(self.test_bit_unchecked(index));
        }
        None
    }

    fn is_empty(&self) -> (r: bool) {
        let r = self.bitfield == 0;
        proof {
            if self.word() == 0 {
                assert forall|j: int| 0 <= j < self.flags().len() implies !self.flags()[j] by {
                    lemma_zero_word_no_bits(j as u64);
                }
            } else {
                lemma_nonzero_word_has_bit(self.word());
                let j = choose|j: u64| j < 64 && nth_bit(self.word(), j);
                assert(self.flags()[j as int]);
            }
        }
        r
    }

    fn set_bit_unchecked(&mut self, index: usize) {
        self.bitfield = self.bitfield | (1u64 << (index as u64));
        proof {
            assert forall|j: int|
                0 <= j < SMALL_BIT_FIELD_BIT_SIZE implies self.flags()[j] == old(
                self,
            ).flags().update(index as int, true)[j] by {
                lemma_or_mask_bits(old(self).word(), index as u64, j as u64);
            }
            assert(self.flags() =~= old(self).flags().update(index as int, true));
        }
    }

    fn clear_bit_unchecked(&mut self, index: usize) {
        self.bitfield = self.bitfield & !(1u64 << (index as u64));
        proof {
            assert forall|j: int|
                0 <= j < SMALL_BIT_FIELD_BIT_SIZE implies self.flags()[j] == old(
                self,
            ).flags().update(index as int, false)[j] by {
                lemma_clear_mask_bits(old(self).word(), index as u64, j as u64);
            }
            assert(self.flags() =~= old(self).flags().update(index as int, false));
        }
    }

    fn test_bit_unchecked(&self, index: usize) -> (r: bool) {
        (self.bitfield >> (index as u64)) & 1u64 == 1u64
    }
}

} // verus!
