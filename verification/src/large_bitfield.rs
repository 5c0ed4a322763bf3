//! The hierarchical bitfield: 64 words of flags plus a summary word that
//! records which words are non-empty, so that lowest/highest queries need
//! exactly two word scans.

use vstd::prelude::*;

verus! {

use crate::{
    FastBitField, LARGE_BIT_FIELD_BIT_SIZE, SMALL_BIT_FIELD_BIT_SIZE,
};

/// A hierarchical fast bitfield holding `LARGE_BIT_FIELD_BIT_SIZE` flags:
/// flag `n` lives in bit `n % 64` of group word `n / 64`, and bit `g` of the
/// summary word (`layer_cache`) is set exactly when group `g` is non-empty.
pub struct LargeBitField {
    /// Holds a bitfield describing which sub bitfields currently have any
    /// set bits.
    layer_cache: u64,
    /// Holds the bitfield state.
    bitfield: [u64; SMALL_BIT_FIELD_BIT_SIZE],
}

impl LargeBitField {
    /// The summary word.
    pub closed spec fn summary(self) -> u64 {
        self.layer_cache
    }

    /// The group words, as a sequence of 64 words.
    pub closed spec fn group_words(self) -> Seq<u64> {
        self.bitfield@
    }

    /// Creates a new, empty `LargeBitField`.
    pub fn new() -> (r: LargeBitField)
        ensures
            r.wf(),
            r.summary() == 0,
            forall|g: int| 0 <= g < SMALL_BIT_FIELD_BIT_SIZE ==> r.group_words()[g] == 0,
            forall|n: int| 0 <= n < LARGE_BIT_FIELD_BIT_SIZE ==> !r.flags()[n],
    {
        let r = LargeBitField { layer_cache: 0, bitfield: [0u64; SMALL_BIT_FIELD_BIT_SIZE] };
        proof {
            assert forall|n: int| 0 <= n < LARGE_BIT_FIELD_BIT_SIZE implies !r.flags()[n] by {
                crate::lemma_zero_word_no_bits((n % 64) as u64);
            }
            assert forall|g: int|
                0 <= g < SMALL_BIT_FIELD_BIT_SIZE implies (r.group_words()[g] != 0 <==> nth_bit(
                r.summary(),
                g as u64,
            )) by {
                crate::lemma_zero_word_no_bits(g as u64);
            }
        }
        r
    }

    /// Gets whether or not a specific group in the bit field has any bits
    /// set, or `None` for an invalid group index. Reads only the summary
    /// word.
    pub fn test_group(&self, group_index: usize) -> (r: Option<bool>)
        requires
            self.wf(),
        ensures
            r == if group_index < SMALL_BIT_FIELD_BIT_SIZE {
                Some(self.group_words()[group_index as int] != 0)
            } else {
                None::<bool>
            },
            group_index < SMALL_BIT_FIELD_BIT_SIZE ==> (self.group_words()[group_index as int]
                != 0 <==> exists|n: int|
                64 * group_index <= n < 64 * (group_index + 1) && self.flags()[n]),
    {
        if group_index < SMALL_BIT_FIELD_BIT_SIZE {
            return Some(self.test_group_unchecked(group_index));
        }
        None
    }

    /// Gets whether or not a group whose index the caller has already
    /// validated has any bits set. Reads only the summary word.
    pub fn test_group_unchecked(&self, group_index: usize) -> (r: bool)
        requires
            self.wf(),
            group_index < SMALL_BIT_FIELD_BIT_SIZE,
        ensures
            r == (self.group_words()[group_index as int] != 0),
            r <==> exists|n: int| 64 * group_index <= n < 64 * (group_index + 1) && self.flags()[n],
    {
        proof {
            self.lemma_group_flags(group_index as int);
        }
        (self.layer_cache >> (group_index as u64)) & 1u64 == 1u64
    }

    /// Sets, in one step, every bit of one group whose bit is set in
    /// `group_field`, keeping the summary word consistent. An out-of-range
    /// group index leaves the structure unchanged.
    pub fn set_group(&mut self, group_index: usize, group_field: u64)
        requires
            old(self).wf(),
        ensures
            final(self).wf(),
            group_index < SMALL_BIT_FIELD_BIT_SIZE ==> final(self).group_words() == old(
                self,
            ).group_words().update(
                group_index as int,
                old(self).group_words()[group_index as int] | group_field,
            ),
            group_index < SMALL_BIT_FIELD_BIT_SIZE ==> forall|n: int|
                0 <= n < LARGE_BIT_FIELD_BIT_SIZE ==> final(self).flags()[n] == (old(
                    self,
                ).flags()[n] || (n / 64 == group_index && nth_bit(group_field, (n % 64) as u64))),
            group_index >= SMALL_BIT_FIELD_BIT_SIZE ==> *final(self) == *old(self),
    {
        if group_index < SMALL_BIT_FIELD_BIT_SIZE {
            self.set_group_unchecked(group_index, group_field);
        }
    }

    /// Clears, in one step, every bit of one group whose bit is set in
    /// `group_field`, re-deriving the group's summary bit. An out-of-range
    /// group index leaves the structure unchanged.
    pub fn clear_group(&mut self, group_index: usize, group_field: u64)
        requires
            old(self).wf(),
        ensures
            final(self).wf(),
            group_index < SMALL_BIT_FIELD_BIT_SIZE ==> final(self).group_words() == old(
                self,
            ).group_words().update(
                group_index as int,
                old(self).group_words()[group_index as int] & !group_field,
            ),
            group_index < SMALL_BIT_FIELD_BIT_SIZE ==> forall|n: int|
                0 <= n < LARGE_BIT_FIELD_BIT_SIZE ==> final(self).flags()[n] == (old(
                    self,
                ).flags()[n] && !(n / 64 == group_index && nth_bit(group_field, (n % 64) as u64))),
            group_index >= SMALL_BIT_FIELD_BIT_SIZE ==> *final(self) == *old(self),
    {
        if group_index < SMALL_BIT_FIELD_BIT_SIZE {
            self.clear_group_unchecked(group_index, group_field);
        }
    }

    /// Sets bits of a group whose index the caller has already validated,
    /// keeping the summary word consistent.
    pub fn set_group_unchecked(&mut self, group_index: usize, group_field: u64)
        requires
            old(self).wf(),
            group_index < SMALL_BIT_FIELD_BIT_SIZE,
        ensures
            final(self).wf(),
            final(self).group_words() == old(self).group_words().update(
                group_index as int,
                old(self).group_words()[group_index as int] | group_field,
            ),
            forall|n: int|
                0 <= n < LARGE_BIT_FIELD_BIT_SIZE ==> final(self).flags()[n] == (old(
                    self,
                ).flags()[n] || (n / 64 == group_index && nth_bit(group_field, (n % 64) as u64))),
    {
        let field_has_values = group_field != 0;
        self.bitfield[group_index] = self.bitfield[group_index] | group_field;
        if field_has_values {
            self.layer_cache = self.layer_cache | (1u64 << (group_index as u64));
        }
        proof {
            let t = group_index as int;
            let g0 = old(self).group_words();
            assert(self.group_words() =~= g0.update(t, g0[t] | group_field));
            assert forall|g: int|
                0 <= g < SMALL_BIT_FIELD_BIT_SIZE implies ((#[trigger] self.group_words()[g]) != 0
                <==> nth_bit(self.summary(), g as u64)) by {
                assert(g0[g] != 0 <==> nth_bit(old(self).summary(), g as u64));
                if field_has_values {
                    crate::lemma_or_mask_bits(old(self).summary(), group_index as u64, g as u64);
                    if g == t {
                        crate::lemma_or_word_zero(g0[t], group_field);
                    }
                } else {
                    assert(g0[t] | group_field == g0[t]) by {
                        crate::lemma_or_zero_identity(g0[t]);
                    }
                }
            }
            assert forall|n: int|
                0 <= n < LARGE_BIT_FIELD_BIT_SIZE implies self.flags()[n] == (old(
                self,
            ).flags()[n] || (n / 64 == group_index && nth_bit(group_field, (n % 64) as u64))) by {
                if n / 64 == t {
                    crate::lemma_or_word_bits(g0[t], group_field, (n % 64) as u64);
                }
            }
        }
    }

    /// Clears bits of a group whose index the caller has already validated,
    /// re-deriving the group's summary bit.
    pub fn clear_group_unchecked(&mut self, group_index: usize, group_field: u64)
        requires
            old(self).wf(),
            group_index < SMALL_BIT_FIELD_BIT_SIZE,
        ensures
            final(self).wf(),
            final(self).group_words() == old(self).group_words().update(
                group_index as int,
                old(self).group_words()[group_index as int] & !group_field,
            ),
            forall|n: int|
                0 <= n < LARGE_BIT_FIELD_BIT_SIZE ==> final(self).flags()[n] == (old(
                    self,
                ).flags()[n] && !(n / 64 == group_index && nth_bit(group_field, (n % 64) as u64))),
    {
        self.bitfield[group_index] = self.bitfield[group_index] & !group_field;
        if self.bitfield[group_index] == 0 {
            self.layer_cache = self.layer_cache & !(1u64 << (group_index as u64));
        }
        proof {
            let t = group_index as int;
            let g0 = old(self).group_words();
            assert(self.group_words() =~= g0.update(t, g0[t] & !group_field));
            assert forall|g: int|
                0 <= g < SMALL_BIT_FIELD_BIT_SIZE implies ((#[trigger] self.group_words()[g]) != 0
                <==> nth_bit(self.summary(), g as u64)) by {
                assert(g0[g] != 0 <==> nth_bit(old(self).summary(), g as u64));
                if self.group_words()[t] == 0 {
                    crate::lemma_clear_mask_bits(old(self).summary(), group_index as u64, g as u64);
                } else {
                    let w0 = g0[t];
                    assert(w0 == 0 ==> (w0 & !group_field) == 0) by (bit_vector);
                }
            }
            assert forall|n: int|
                0 <= n < LARGE_BIT_FIELD_BIT_SIZE implies self.flags()[n] == (old(
                self,
            ).flags()[n] && !(n / 64 == group_index && nth_bit(group_field, (n % 64) as u64))) by {
                if n / 64 == t {
                    crate::lemma_and_not_word_bits(g0[t], group_field, (n % 64) as u64);
                }
            }
        }
    }

    /// Sets, group by group, every bit set in `values`, each step keeping
    /// the summary word consistent.
    pub fn set_field(&mut self, values: &[u64; SMALL_BIT_FIELD_BIT_SIZE])
        requires
            old(self).wf(),
        ensures
            final(self).wf(),
            forall|g: int|
                0 <= g < SMALL_BIT_FIELD_BIT_SIZE ==> final(self).group_words()[g] == (old(
                    self,
                ).group_words()[g] | values@[g]),
            forall|n: int|
                0 <= n < LARGE_BIT_FIELD_BIT_SIZE ==> final(self).flags()[n] == (old(
                    self,
                ).flags()[n] || nth_bit(values@[n / 64], (n % 64) as u64)),
    {
        for index in 0..SMALL_BIT_FIELD_BIT_SIZE
            invariant
                self.wf(),
                forall|g: int|
                    0 <= g < index ==> self.group_words()[g] == (old(self).group_words()[g]
                        | values@[g]),
                forall|g: int|
                    index <= g < SMALL_BIT_FIELD_BIT_SIZE ==> self.group_words()[g] == old(
                        self,
                    ).group_words()[g],
        {
            self.set_group_unchecked(index, values[index]);
        }
        proof {
            assert forall|n: int|
                0 <= n < LARGE_BIT_FIELD_BIT_SIZE implies self.flags()[n] == (old(
                self,
            ).flags()[n] || nth_bit(values@[n / 64], (n % 64) as u64)) by {
                crate::lemma_or_word_bits(
                    old(self).group_words()[n / 64],
                    values@[n / 64],
                    (n % 64) as u64,
                );
            }
        }
    }

    /// Clears, group by group, every bit set in `values`, each step keeping
    /// the summary word consistent.
    pub fn clear_field(&mut self, values: &[u64; SMALL_BIT_FIELD_BIT_SIZE])
        requires
            old(self).wf(),
        ensures
            final(self).wf(),
            forall|g: int|
                0 <= g < SMALL_BIT_FIELD_BIT_SIZE ==> final(self).group_words()[g] == (old(
                    self,
                ).group_words()[g] & !values@[g]),
            forall|n: int|
                0 <= n < LARGE_BIT_FIELD_BIT_SIZE ==> final(self).flags()[n] == (old(
                    self,
                ).flags()[n] && !nth_bit(values@[n / 64], (n % 64) as u64)),
    {
        for index in 0..SMALL_BIT_FIELD_BIT_SIZE
            invariant
                self.wf(),
                forall|g: int|
                    0 <= g < index ==> self.group_words()[g] == (old(self).group_words()[g]
                        & !values@[g]),
                forall|g: int|
                    index <= g < SMALL_BIT_FIELD_BIT_SIZE ==> self.group_words()[g] == old(
                        self,
                    ).group_words()[g],
        {
            self.clear_group_unchecked(index, values[index]);
        }
        proof {
            assert forall|n: int|
                0 <= n < LARGE_BIT_FIELD_BIT_SIZE implies self.flags()[n] == (old(
                self,
            ).flags()[n] && !nth_bit(values@[n / 64], (n % 64) as u64)) by {
                crate::lemma_and_not_word_bits(
                    old(self).group_words()[n / 64],
                    values@[n / 64],
                    (n % 64) as u64,
                );
            }
        }
    }

    /// A group word is non-zero exactly when some flag of that group is set.
    proof fn lemma_group_flags(self, g: int)
        requires
            0 <= g < SMALL_BIT_FIELD_BIT_SIZE,
        ensures
            (self.group_words()[g] != 0) <==> (exists|n: int|
                64 * g <= n < 64 * (g + 1) && self.flags()[n]),
    {
        if self.group_words()[g] != 0 {
            crate::lemma_nonzero_word_has_bit(self.group_words()[g]);
            let o = choose|o: u64| o < 64 && nth_bit(self.group_words()[g], o);
            let n = 64 * g + o;
            assert(n / 64 == g && n % 64 == o as int) by (nonlinear_arith)
                requires
                    0 <= g < 64,
                    o < 64,
                    n == 64 * g + o,
            ;
            assert(64 * g <= n < 64 * (g + 1) && self.flags()[n]);
        }
        if exists|n: int| 64 * g <= n < 64 * (g + 1) && self.flags()[n] {
            let n = choose|n: int| 64 * g <= n < 64 * (g + 1) && self.flags()[n];
            assert(n / 64 == g && 0 <= n % 64 < 64) by (nonlinear_arith)
                requires
                    0 <= g < 64,
                    64 * g <= n < 64 * (g + 1),
            ;
            if self.group_words()[g] == 0 {
                crate::lemma_zero_word_no_bits((n % 64) as u64);
            }
        }
    }
}

use crate::nth_bit;

impl FastBitField for LargeBitField {
    open spec fn spec_number_of_bits() -> usize {
        LARGE_BIT_FIELD_BIT_SIZE
    }

    /// The summary invariant: bit `g` of the summary word is set exactly
    /// when group word `g` is non-zero.
    open spec fn wf(self) -> bool {
        forall|g: int|
            0 <= g < SMALL_BIT_FIELD_BIT_SIZE ==> ((#[trigger] self.group_words()[g]) != 0
                <==> nth_bit(self.summary(), g as u64))
    }

    open spec fn flags(self) -> Seq<bool> {
        Seq::new(
            LARGE_BIT_FIELD_BIT_SIZE as nat,
            |n: int| nth_bit(self.group_words()[n / 64], (n % 64) as u64),
        )
    }

    proof fn lemma_flags_len(s: Self) {
    }

    proof fn lemma_flags_injective(a: Self, b: Self) {
        assert forall|g: int| 0 <= g < 64 implies a.group_words()[g] == b.group_words()[g] by {
            assert forall|o: u64| o < 64 implies nth_bit(a.group_words()[g], o) == nth_bit(
                b.group_words()[g],
                o,
            ) by {
                let n = 64 * g + o;
                assert(n / 64 == g && n % 64 == o as int) by (nonlinear_arith)
                    requires
                        0 <= g < 64,
                        o < 64,
                        n == 64 * g + o,
                ;
                assert(a.flags()[n] == nth_bit(a.group_words()[g], o));
                assert(b.flags()[n] == nth_bit(b.group_words()[g], o));
                assert(a.flags()[n] == b.flags()[n]);
            }
            crate::lemma_word_bits_ext(a.group_words()[g], b.group_words()[g]);
        }
        assert(a.group_words() =~= b.group_words());
        assert forall|g: u64| g < 64 implies nth_bit(a.summary(), g) == nth_bit(b.summary(), g) by {
            assert(a.group_words()[g as int] == b.group_words()[g as int]);
        }
        crate::lemma_word_bits_ext(a.summary(), b.summary());
        assert(a.bitfield =~= b.bitfield);
    }

    fn get_number_of_bits() -> usize {
        LARGE_BIT_FIELD_BIT_SIZE
    }

    fn set_bit(&mut self, index: usize) {
        if index < LARGE_BIT_FIELD_BIT_SIZE {
            self.set_bit_unchecked(index);
        }
    }

    fn clear_bit(&mut self, index: usize) {
        if index < LARGE_BIT_FIELD_BIT_SIZE {
            self.clear_bit_unchecked(index);
        }
    }

    fn get_lowest_set_bit(&self) -> (r: Option<usize>) {
        if self.is_empty() {
            return None;
        }
        Some(self.get_lowest_set_bit_unchecked())
    }

    fn get_highest_set_bit(&self) -> (r: Option<usize>) {
        if self.is_empty() {
            return None;
        }
        Some(self.get_highest_set_bit_unchecked())
    }

    fn get_lowest_set_bit_unchecked(&self) -> (r: usize) {
        proof {
            self.lemma_nonempty_summary();
        }
        let level = crate::find_lowest_set_bit(self.layer_cache);
        proof {
            assert(self.group_words()[level as int] != 0);
        }
        let sub_field = self.bitfield[level];
        let low = crate::find_lowest_set_bit(sub_field);
        let r = level * SMALL_BIT_FIELD_BIT_SIZE + low;
        proof {
            self.lemma_two_level_lowest(level as int, low as int);
        }
        r
    }

    fn get_highest_set_bit_unchecked(&self) -> (r: usize) {
        proof {
            self.lemma_nonempty_summary();
        }
        let level = crate::find_highest_set_bit(self.layer_cache);
        proof {
            assert(self.group_words()[level as int] != 0);
        }
        let sub_field = self.bitfield[level];
        let high = crate::find_highest_set_bit(sub_field);
        let r = level * SMALL_BIT_FIELD_BIT_SIZE + high;
        proof {
            self.lemma_two_level_highest(level as int, high as int);
        }
        r
    }

    fn test_bit(&self, index: usize) -> (r: Option<bool>) {
        if index < LARGE_BIT_FIELD_BIT_SIZE {
            return Some(self.test_bit_unchecked(index));
        }
        None
    }

    fn is_empty(&self) -> (r: bool) {
        let r = self.layer_cache == 0;
        proof {
            if self.summary() == 0 {
                assert forall|n: int| 0 <= n < self.flags().len() implies !self.flags()[n] by {
                    crate::lemma_zero_word_no_bits((n / 64) as u64);
                    crate::lemma_zero_word_no_bits((n % 64) as u64);
                    assert(self.group_words()[n / 64] == 0);
                }
            } else {
                crate::lemma_nonzero_word_has_bit(self.summary());
                let g = choose|g: u64| g < 64 && nth_bit(self.summary(), g);
                assert(self.group_words()[g as int] != 0);
                crate::lemma_nonzero_word_has_bit(self.group_words()[g as int]);
                let o = choose|o: u64| o < 64 && nth_bit(self.group_words()[g as int], o);
                let n = 64 * (g as int) + o;
                assert(n / 64 == g as int && n % 64 == o as int) by (nonlinear_arith)
                    requires
                        g < 64,
                        o < 64,
                        n == 64 * (g as int) + o,
                ;
                assert(self.flags()[n]);
            }
        }
        r
    }

    fn set_bit_unchecked(&mut self, index: usize) {
        let top_layer = index / SMALL_BIT_FIELD_BIT_SIZE;
        let bottom_layer = index % SMALL_BIT_FIELD_BIT_SIZE;

        self.layer_cache = self.layer_cache | (1u64 << (top_layer as u64));
        self.bitfield[top_layer] = self.bitfield[top_layer] | (1u64 << (bottom_layer as u64));

        proof {
            let t = top_layer as int;
            let b = bottom_layer as u64;
            let g0 = old(self).group_words();
            assert(self.group_words() =~= g0.update(t, g0[t] | (1u64 << b)));
            assert forall|g: int|
                0 <= g < SMALL_BIT_FIELD_BIT_SIZE implies ((#[trigger] self.group_words()[g]) != 0
                <==> nth_bit(self.summary(), g as u64)) by {
                crate::lemma_or_mask_bits(old(self).summary(), top_layer as u64, g as u64);
                if g == t {
                    crate::lemma_or_mask_nonzero(g0[t], b);
                }
            }
            assert forall|n: int|
                0 <= n < LARGE_BIT_FIELD_BIT_SIZE implies self.flags()[n] == old(
                self,
            ).flags().update(index as int, true)[n] by {
                assert(64 * (n / 64) + n % 64 == n);
                assert(64 * t + b == index);
                if n / 64 == t {
                    crate::lemma_or_mask_bits(g0[t], b, (n % 64) as u64);
                }
            }
            assert(self.flags() =~= old(self).flags().update(index as int, true));
        }
    }

    fn clear_bit_unchecked(&mut self, index: usize) {
        let top_layer = index / SMALL_BIT_FIELD_BIT_SIZE;
        let bottom_layer = index % SMALL_BIT_FIELD_BIT_SIZE;

        self.bitfield[top_layer] = self.bitfield[top_layer] & !(1u64 << (bottom_layer as u64));
        if self.bitfield[top_layer] == 0 {
            self.layer_cache = self.layer_cache & !(1u64 << (top_layer as u64));
        }

        proof {
            let t = top_layer as int;
            let b = bottom_layer as u64;
            let g0 = old(self).group_words();
            assert(self.group_words() =~= g0.update(t, g0[t] & !(1u64 << b)));
            assert forall|g: int|
                0 <= g < SMALL_BIT_FIELD_BIT_SIZE implies ((#[trigger] self.group_words()[g]) != 0
                <==> nth_bit(self.summary(), g as u64)) by {
                assert(g0[g] != 0 <==> nth_bit(old(self).summary(), g as u64));
                if self.group_words()[t] == 0 {
                    crate::lemma_clear_mask_bits(old(self).summary(), top_layer as u64, g as u64);
                } else {
                    let w0 = g0[t];
                    let w1 = self.group_words()[t];
                    assert(w1 == (w0 & !(1u64 << b)));
                    assert(w0 == 0 ==> (w0 & !(1u64 << b)) == 0) by (bit_vector);
                    assert(w0 != 0);
                }
            }
            assert forall|n: int|
                0 <= n < LARGE_BIT_FIELD_BIT_SIZE implies self.flags()[n] == old(
                self,
            ).flags().update(index as int, false)[n] by {
                assert(64 * (n / 64) + n % 64 == n);
                assert(64 * t + b == index);
                if n / 64 == t {
                    crate::lemma_clear_mask_bits(g0[t], b, (n % 64) as u64);
                }
            }
            assert(self.flags() =~= old(self).flags().update(index as int, false));
        }
    }

    fn test_bit_unchecked(&self, index: usize) -> (r: bool) {
        let top_layer = index / SMALL_BIT_FIELD_BIT_SIZE;
        let bottom_layer = index % SMALL_BIT_FIELD_BIT_SIZE;
        (self.bitfield[top_layer] >> (bottom_layer as u64)) & 1u64 == 1u64
    }
}

impl LargeBitField {
    /// A non-empty hierarchical bitfield has a non-zero summary word, and a
    /// non-zero group word under every set summary bit.
    proof fn lemma_nonempty_summary(self)
        requires
            self.wf(),
            exists|j: int| 0 <= j < self.flags().len() && self.flags()[j],
        ensures
            self.summary() != 0,
    {
        let n = choose|n: int| 0 <= n < self.flags().len() && self.flags()[n];
        let g = n / 64;
        assert(self.group_words()[g] != 0) by {
            if self.group_words()[g] == 0 {
                crate::lemma_zero_word_no_bits((n % 64) as u64);
            }
        }
        assert(nth_bit(self.summary(), g as u64));
        if self.summary() == 0 {
            crate::lemma_zero_word_no_bits(g as u64);
        }
    }

    /// Composing the lowest summary bit with the lowest bit of its group
    /// yields the lowest set flag.
    proof fn lemma_two_level_lowest(self, level: int, low: int)
        requires
            self.wf(),
            0 <= level < 64,
            0 <= low < 64,
            nth_bit(self.summary(), level as u64),
            forall|j: u64| j < level ==> !nth_bit(self.summary(), j),
            nth_bit(self.group_words()[level], low as u64),
            forall|j: u64| j < low ==> !nth_bit(self.group_words()[level], j),
        ensures
            0 <= 64 * level + low < LARGE_BIT_FIELD_BIT_SIZE,
            self.flags()[64 * level + low],
            forall|j: int| 0 <= j < 64 * level + low ==> !self.flags()[j],
    {
        let r = 64 * level + low;
        assert(r / 64 == level && r % 64 == low) by (nonlinear_arith)
            requires
                0 <= level < 64,
                0 <= low < 64,
                r == 64 * level + low,
        ;
        assert(self.flags()[r]);
        assert forall|j: int| 0 <= j < r implies !self.flags()[j] by {
            let gj = j / 64;
            let oj = j % 64;
            assert(64 * gj + oj == j);
            assert(gj <= level) by (nonlinear_arith)
                requires
                    j < r,
                    r == 64 * level + low,
                    0 <= low < 64,
                    gj == j / 64,
                    0 <= j,
                    64 * gj + j % 64 == j,
                    0 <= j % 64 < 64,
            ;
            if gj < level {
                assert(!nth_bit(self.summary(), gj as u64));
                assert(self.group_words()[gj] == 0);
                crate::lemma_zero_word_no_bits(oj as u64);
            } else {
                assert(oj < low);
                assert(!nth_bit(self.group_words()[level], oj as u64));
            }
        }
    }

    /// Composing the highest summary bit with the highest bit of its group
    /// yields the highest set flag.
    proof fn lemma_two_level_highest(self, level: int, high: int)
        requires
            self.wf(),
            0 <= level < 64,
            0 <= high < 64,
            nth_bit(self.summary(), level as u64),
            forall|j: u64| level < j < 64 ==> !nth_bit(self.summary(), j),
            nth_bit(self.group_words()[level], high as u64),
            forall|j: u64| high < j < 64 ==> !nth_bit(self.group_words()[level], j),
        ensures
            0 <= 64 * level + high < LARGE_BIT_FIELD_BIT_SIZE,
            self.flags()[64 * level + high],
            forall|j: int| 64 * level + high < j < LARGE_BIT_FIELD_BIT_SIZE ==> !self.flags()[j],
    {
        let r = 64 * level + high;
        assert(r / 64 == level && r % 64 == high) by (nonlinear_arith)
            requires
                0 <= level < 64,
                0 <= high < 64,
                r == 64 * level + high,
        ;
        assert(self.flags()[r]);
        assert forall|j: int| r < j < LARGE_BIT_FIELD_BIT_SIZE implies !self.flags()[j] by {
            let gj = j / 64;
            let oj = j % 64;
            assert(64 * gj + oj == j);
            assert(level <= gj < 64) by (nonlinear_arith)
                requires
                    r < j < 4096,
                    r == 64 * level + high,
                    0 <= high < 64,
                    gj == j / 64,
                    64 * gj + j % 64 == j,
                    0 <= j % 64 < 64,
            ;
            if gj > level {
                assert(!nth_bit(self.summary(), gj as u64));
                assert(self.group_words()[gj] == 0);
                crate::lemma_zero_word_no_bits(oj as u64);
            } else {
                assert(oj > high);
                assert(!nth_bit(self.group_words()[level], oj as u64));
            }
        }
    }
}

} // verus!
