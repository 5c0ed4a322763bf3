//! Fast bitfields: fixed-capacity sets of boolean flags, indexed from zero,
//! that can report their lowest and highest set flag in a bounded number of
//! word operations instead of a linear scan.
//!
//! Two implementations are provided behind the shared [`FastBitField`]
//! contract: [`SmallBitField`], a single 64-bit word, and [`LargeBitField`],
//! an array of 64 words together with a summary word whose bit `g` records
//! whether group `g` holds any set flag, so that lowest/highest queries need
//! exactly two word scans.

use vstd::prelude::*;

pub mod large_bitfield;
pub mod small_bitfield;
pub mod laws;

pub use large_bitfield::LargeBitField;
pub use small_bitfield::SmallBitField;

verus! {

use vstd::std_specs::bits::{
    axiom_u64_leading_zeros, axiom_u64_trailing_zeros, u64_leading_zeros, u64_trailing_zeros,
};

/// Number of flags in a `SmallBitField`: the bits of one 64-bit word.
pub const SMALL_BIT_FIELD_BIT_SIZE: usize = 64;

/// Number of flags in a `LargeBitField`: one word of flags per bit of the
/// summary word.
pub const LARGE_BIT_FIELD_BIT_SIZE: usize = 64 * 64;

/// Whether bit `i` of the word `w` is set (meaningful for `i < 64`).
pub open spec fn nth_bit(w: u64, i: u64) -> bool
    recommends
        i < 64,
{
    (w >> i) & 1u64 == 1u64
}

/// Setting bit `i` of a word sets exactly that bit and leaves the others.
pub proof fn lemma_or_mask_bits(w: u64, i: u64, j: u64)
    by (bit_vector)
    requires
        i < 64,
        j < 64,
    ensures
        nth_bit(w | (1u64 << i), j) == (nth_bit(w, j) || i == j),
{
}

/// Clearing bit `i` of a word clears exactly that bit and leaves the others.
pub proof fn lemma_clear_mask_bits(w: u64, i: u64, j: u64)
    by (bit_vector)
    requires
        i < 64,
        j < 64,
    ensures
        nth_bit(w & !(1u64 << i), j) == (nth_bit(w, j) && i != j),
{
}

/// The bits of a bitwise or are the unions of the operands' bits.
pub proof fn lemma_or_word_bits(a: u64, b: u64, j: u64)
    by (bit_vector)
    requires
        j < 64,
    ensures
        nth_bit(a | b, j) == (nth_bit(a, j) || nth_bit(b, j)),
{
}

/// The bits of `a & !b` are the bits of `a` with the bits of `b` removed.
pub proof fn lemma_and_not_word_bits(a: u64, b: u64, j: u64)
    by (bit_vector)
    requires
        j < 64,
    ensures
        nth_bit(a & !b, j) == (nth_bit(a, j) && !nth_bit(b, j)),
{
}

/// A bitwise or is zero exactly when both operands are zero.
pub proof fn lemma_or_word_zero(a: u64, b: u64)
    by (bit_vector)
    ensures
        ((a | b) == 0) == (a == 0 && b == 0),
{
}

/// Or with the zero word changes nothing.
pub proof fn lemma_or_zero_identity(w: u64)
    by (bit_vector)
    ensures
        (w | 0u64) == w,
{
}

/// A word with a single bit set is not zero, so neither is any or with it.
pub proof fn lemma_or_mask_nonzero(w: u64, i: u64)
    by (bit_vector)
    requires
        i < 64,
    ensures
        (w | (1u64 << i)) != 0,
{
}

/// The zero word has no set bits.
pub proof fn lemma_zero_word_no_bits(j: u64)
    by (bit_vector)
    requires
        j < 64,
    ensures
        !nth_bit(0u64, j),
{
}

/// Every non-zero word has at least one set bit.
pub proof fn lemma_nonzero_word_has_bit(w: u64)
    requires
        w != 0,
    ensures
        exists|j: u64| j < 64 && nth_bit(w, j),
{
    axiom_u64_trailing_zeros(w);
    let t = u64_trailing_zeros(w) as u64;
    assert(t < 64 && nth_bit(w, t));
}

/// Words that agree on all 64 bits are equal.
pub proof fn lemma_word_bits_ext(a: u64, b: u64)
    requires
        forall|j: u64| j < 64 ==> nth_bit(a, j) == nth_bit(b, j),
    ensures
        a == b,
{
    if a != b {
        let c = a ^ b;
        assert(c != 0) by (bit_vector)
            requires
                c == (a ^ b),
                a != b,
        ;
        axiom_u64_trailing_zeros(c);
        let t = u64_trailing_zeros(c) as u64;
        assert(t < 64 && ((c >> t) & 1u64 == 1u64));
        assert(nth_bit(a, t) != nth_bit(b, t)) by (bit_vector)
            requires
                t < 64,
                c == (a ^ b),
                (c >> t) & 1u64 == 1u64,
        ;
    }
}

/// Gets the lowest set bit of a non-zero word: the bit-scan primitive on
/// which both bitfield types rely.
pub fn find_lowest_set_bit(value: u64) -> (r: usize)
    requires
        value != 0,
    ensures
        r < 64,
        nth_bit(value, r as u64),
        forall|j: u64| j < r ==> !nth_bit(value, j),
{
    proof {
        axiom_u64_trailing_zeros(value);
    }
    value.trailing_zeros() as usize
}

/// Gets the highest set bit of a non-zero word: the bit-scan primitive on
/// which both bitfield types rely.
pub fn find_highest_set_bit(value: u64) -> (r: usize)
    requires
        value != 0,
    ensures
        r < 64,
        nth_bit(value, r as u64),
        forall|j: u64| r < j < 64 ==> !nth_bit(value, j),
{
    proof {
        axiom_u64_leading_zeros(value);
    }
    let leading = value.leading_zeros() as usize;
    let r = SMALL_BIT_FIELD_BIT_SIZE - 1 - leading;
    proof {
        let lz = u64_leading_zeros(value);
        assert(0 <= lz < 64);
        assert(r == 63 - lz);
        let k = (63u64 - (lz as u64)) as u64;
        assert(k == r as u64);
        assert((value >> k) & 1u64 != 0);
        assert(((value >> (r as u64)) & 1u64 != 0) ==> nth_bit(value, r as u64)) by (bit_vector);
    }
    r
}

/// The shared contract of the fast bitfield types.
///
/// A bitfield is a fixed-size sequence of flags, described by the ghost
/// sequence `flags()`. Checked operations silently ignore an out-of-range
/// index; `..._unchecked` operations demand the validated index (or a
/// non-empty field) as a precondition in exchange for skipping the test.
pub trait FastBitField: Sized {
    /// Number of flags the type holds.
    spec fn spec_number_of_bits() -> usize;

    /// Internal consistency; trivial for flat bitfields, the summary-word
    /// invariant for hierarchical ones. Every operation preserves it.
    spec fn wf(self) -> bool;

    /// The flags held, as a sequence of `spec_number_of_bits()` booleans.
    spec fn flags(self) -> Seq<bool>;

    /// The flag sequence always has exactly `spec_number_of_bits()` entries.
    proof fn lemma_flags_len(s: Self)
        ensures
            s.flags().len() == Self::spec_number_of_bits(),
    ;

    /// A well-formed bitfield is determined by its flags: states that hold
    /// the same flags are equal, byte for byte.
    proof fn lemma_flags_injective(a: Self, b: Self)
        requires
            a.wf(),
            b.wf(),
            a.flags() == b.flags(),
        ensures
            a == b,
    ;

    /// Gets the number of bits available in the bitfield type.
    fn get_number_of_bits() -> (r: usize)
        ensures
            r == Self::spec_number_of_bits(),
    ;

    /// Sets a bit in the bitfield. An out-of-range index leaves the
    /// structure unchanged.
    fn set_bit(&mut self, index: usize)
        requires
            old(self).wf(),
        ensures
            final(self).wf(),
            index < Self::spec_number_of_bits() ==> final(self).flags() == old(self).flags().update(
                index as int,
                true,
            ),
            index >= Self::spec_number_of_bits() ==> *final(self) == *old(self),
    ;

    /// Clears a bit in the bitfield. An out-of-range index leaves the
    /// structure unchanged.
    fn clear_bit(&mut self, index: usize)
        requires
            old(self).wf(),
        ensures
            final(self).wf(),
            index < Self::spec_number_of_bits() ==> final(self).flags() == old(self).flags().update(
                index as int,
                false,
            ),
            index >= Self::spec_number_of_bits() ==> *final(self) == *old(self),
    ;

    /// Gets the lowest set bit, or `None` if no bits are set.
    fn get_lowest_set_bit(&self) -> (r: Option<usize>)
        requires
            self.wf(),
        ensures
            match r {
                Some(i) => i < Self::spec_number_of_bits() && self.flags()[i as int] && forall|
                    j: int,
                |
                    0 <= j < i ==> !self.flags()[j],
                None => forall|j: int| 0 <= j < self.flags().len() ==> !self.flags()[j],
            },
    ;

    /// Gets the highest set bit, or `None` if no bits are set.
    fn get_highest_set_bit(&self) -> (r: Option<usize>)
        requires
            self.wf(),
        ensures
            match r {
                Some(i) => i < Self::spec_number_of_bits() && self.flags()[i as int] && forall|
                    j: int,
                |
                    i < j < self.flags().len() ==> !self.flags()[j],
                None => forall|j: int| 0 <= j < self.flags().len() ==> !self.flags()[j],
            },
    ;

    /// Gets the lowest set bit without testing for emptiness first: the
    /// caller must know that at least one bit is set.
    fn get_lowest_set_bit_unchecked(&self) -> (r: usize)
        requires
            self.wf(),
            exists|j: int| 0 <= j < self.flags().len() && self.flags()[j],
        ensures
            r < Self::spec_number_of_bits(),
            self.flags()[r as int],
            forall|j: int| 0 <= j < r ==> !self.flags()[j],
    ;

    /// Gets the highest set bit without testing for emptiness first: the
    /// caller must know that at least one bit is set.
    fn get_highest_set_bit_unchecked(&self) -> (r: usize)
        requires
            self.wf(),
            exists|j: int| 0 <= j < self.flags().len() && self.flags()[j],
        ensures
            r < Self::spec_number_of_bits(),
            self.flags()[r as int],
            forall|j: int| r < j < self.flags().len() ==> !self.flags()[j],
    ;

    /// Gets the value of a specific bit, or `None` for an invalid index.
    fn test_bit(&self, index: usize) -> (r: Option<bool>)
        requires
            self.wf(),
        ensures
            r == if index < Self::spec_number_of_bits() {
                Some(self.flags()[index as int])
            } else {
                None::<bool>
            },
    ;

    /// Determines whether or not the bitfield is empty: true exactly when no
    /// flag in range is set.
    fn is_empty(&self) -> (r: bool)
        requires
            self.wf(),
        ensures
            r <==> (forall|j: int| 0 <= j < self.flags().len() ==> !self.flags()[j]),
    ;

    /// Sets a bit whose index the caller has already validated.
    fn set_bit_unchecked(&mut self, index: usize)
        requires
            old(self).wf(),
            index < Self::spec_number_of_bits(),
        ensures
            final(self).wf(),
            final(self).flags() == old(self).flags().update(index as int, true),
    ;

    /// Clears a bit whose index the caller has already validated.
    fn clear_bit_unchecked(&mut self, index: usize)
        requires
            old(self).wf(),
            index < Self::spec_number_of_bits(),
        ensures
            final(self).wf(),
            final(self).flags() == old(self).flags().update(index as int, false),
    ;

    /// Gets the value of a bit whose index the caller has already validated.
    fn test_bit_unchecked(&self, index: usize) -> (r: bool)
        requires
            self.wf(),
            index < Self::spec_number_of_bits(),
        ensures
            r == self.flags()[index as int],
    ;
}

} // verus!
