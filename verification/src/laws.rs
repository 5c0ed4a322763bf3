//! Laws that relate the bitfield operations to one another: the two-sided
//! queries agree with a naive linear scan, and repeated mutations collapse.

use vstd::prelude::*;

verus! {

use crate::FastBitField;

/// The result a naive scanner reports when it walks the flags upward
/// starting at position `k`.
pub open spec fn scan_lowest_from(flags: Seq<bool>, k: int) -> Option<int>
    decreases flags.len() - k,
{
    if k < 0 || k >= flags.len() {
        None
    } else if flags[k] {
        Some(k)
    } else {
        scan_lowest_from(flags, k + 1)
    }
}

/// The result of a naive linear scan for the lowest set flag.
pub open spec fn scan_lowest(flags: Seq<bool>) -> Option<int> {
    scan_lowest_from(flags, 0)
}

/// The result a naive scanner reports when it walks the flags downward
/// starting at position `k`.
pub open spec fn scan_highest_from(flags: Seq<bool>, k: int) -> Option<int>
    decreases k + 1,
{
    if k < 0 || k >= flags.len() {
        None
    } else if flags[k] {
        Some(k)
    } else {
        scan_highest_from(flags, k - 1)
    }
}

/// The result of a naive linear scan for the highest set flag.
pub open spec fn scan_highest(flags: Seq<bool>) -> Option<int> {
    scan_highest_from(flags, flags.len() - 1)
}

proof fn lemma_scan_lowest_from_finds(flags: Seq<bool>, k: int, low: int)
    requires
        0 <= k <= low < flags.len(),
        flags[low],
        forall|j: int| 0 <= j < low ==> !flags[j],
    ensures
        scan_lowest_from(flags, k) == Some(low),
    decreases low - k,
{
    if k < low {
        lemma_scan_lowest_from_finds(flags, k + 1, low);
    }
}

/// Law: an index that is set while everything below it is clear is exactly
/// what the naive upward scan reports, so `get_lowest_set_bit` agrees with a
/// linear scan over all indices.
pub proof fn lemma_lowest_matches_scan(flags: Seq<bool>, low: int)
    requires
        0 <= low < flags.len(),
        flags[low],
        forall|j: int| 0 <= j < low ==> !flags[j],
    ensures
        scan_lowest(flags) == Some(low),
{
    lemma_scan_lowest_from_finds(flags, 0, low);
}

proof fn lemma_scan_lowest_from_empty(flags: Seq<bool>, k: int)
    requires
        forall|j: int| 0 <= j < flags.len() ==> !flags[j],
    ensures
        scan_lowest_from(flags, k) == None::<int>,
    decreases flags.len() - k,
{
    if 0 <= k < flags.len() {
        lemma_scan_lowest_from_empty(flags, k + 1);
    }
}

proof fn lemma_scan_highest_from_finds(flags: Seq<bool>, k: int, high: int)
    requires
        0 <= high <= k < flags.len(),
        flags[high],
        forall|j: int| high < j < flags.len() ==> !flags[j],
    ensures
        scan_highest_from(flags, k) == Some(high),
    decreases k - high,
{
    if k > high {
        lemma_scan_highest_from_finds(flags, k - 1, high);
    }
}

/// Law: an index that is set while everything above it is clear is exactly
/// what the naive downward scan reports, so `get_highest_set_bit` agrees
/// with a linear scan over all indices.
pub proof fn lemma_highest_matches_scan(flags: Seq<bool>, high: int)
    requires
        0 <= high < flags.len(),
        flags[high],
        forall|j: int| high < j < flags.len() ==> !flags[j],
    ensures
        scan_highest(flags) == Some(high),
{
    lemma_scan_highest_from_finds(flags, flags.len() - 1, high);
}

proof fn lemma_scan_highest_from_empty(flags: Seq<bool>, k: int)
    requires
        forall|j: int| 0 <= j < flags.len() ==> !flags[j],
    ensures
        scan_highest_from(flags, k) == None::<int>,
    decreases k + 1,
{
    if 0 <= k < flags.len() {
        lemma_scan_highest_from_empty(flags, k - 1);
    }
}

/// Law: when no flag is set, both naive scans report nothing, matching the
/// `None` answers of `get_lowest_set_bit` and `get_highest_set_bit` on an
/// empty bitfield.
pub proof fn lemma_empty_matches_scan(flags: Seq<bool>)
    requires
        forall|j: int| 0 <= j < flags.len() ==> !flags[j],
    ensures
        scan_lowest(flags) == None::<int>,
        scan_highest(flags) == None::<int>,
{
    lemma_scan_lowest_from_empty(flags, 0);
    lemma_scan_highest_from_empty(flags, flags.len() - 1);
}

/// Law: on a non-empty bitfield the lowest set index never exceeds the
/// highest set index.
pub proof fn lemma_lowest_le_highest(flags: Seq<bool>, low: int, high: int)
    requires
        0 <= low < flags.len(),
        flags[low],
        forall|j: int| 0 <= j < low ==> !flags[j],
        0 <= high < flags.len(),
        flags[high],
        forall|j: int| high < j < flags.len() ==> !flags[j],
    ensures
        low <= high,
{
    if low > high {
        assert(!flags[low]);
    }
}

/// Law: setting the same bit twice is the same as setting it once. The
/// second `set_bit` leaves the structure byte for byte as the first left it.
pub proof fn lemma_set_idempotent<T: FastBitField>(s0: T, s1: T, s2: T, index: usize)
    requires
        s0.wf(),
        s1.wf(),
        s2.wf(),
        index < T::spec_number_of_bits(),
        s1.flags() == s0.flags().update(index as int, true),
        s2.flags() == s1.flags().update(index as int, true),
    ensures
        s2 == s1,
{
    T::lemma_flags_len(s0);
    assert(s2.flags() =~= s1.flags());
    T::lemma_flags_injective(s2, s1);
}

/// Law: clearing a bit that is already clear changes nothing. The structure
/// after `clear_bit` is byte for byte the structure before it.
pub proof fn lemma_clear_already_clear<T: FastBitField>(s0: T, s1: T, index: usize)
    requires
        s0.wf(),
        s1.wf(),
        index < T::spec_number_of_bits(),
        !s0.flags()[index as int],
        s1.flags() == s0.flags().update(index as int, false),
    ensures
        s1 == s0,
{
    T::lemma_flags_len(s0);
    assert(s1.flags() =~= s0.flags());
    T::lemma_flags_injective(s1, s0);
}

} // verus!
