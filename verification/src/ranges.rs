//! The fixed set of five inclusive ranges that partition the non-negative
//! integers, and classification of a value into the first range that
//! contains it.

use vstd::prelude::*;
use core::ops::RangeInclusive;

verus! {

/// Number of ranges in the fixed range set.
pub const NUM_RANGES: usize = 5;

/// Lower bound of range `i`.
pub open spec fn range_lo(i: int) -> usize {
    if i == 0 {
        0
    } else if i == 1 {
        10
    } else if i == 2 {
        100
    } else if i == 3 {
        1000
    } else {
        10000
    }
}

/// Upper (inclusive) bound of range `i`.
pub open spec fn range_hi(i: int) -> usize {
    if i == 0 {
        10
    } else if i == 1 {
        100
    } else if i == 2 {
        1000
    } else if i == 3 {
        10000
    } else {
        usize::MAX
    }
}

/// `v` lies in range `i` (bounds inclusive).
pub open spec fn in_range(i: int, v: usize) -> bool {
    range_lo(i) <= v && v <= range_hi(i)
}

/// The index of the first range that contains `v`. Adjacent ranges share
/// their boundary value, and the lower-indexed range wins there.
pub open spec fn classify_spec(v: usize) -> int {
    if v <= 10 {
        0
    } else if v <= 100 {
        1
    } else if v <= 1000 {
        2
    } else if v <= 10000 {
        3
    } else {
        4
    }
}

/// The fixed range set, in ascending order.
pub fn ranges() -> (r: Vec<RangeInclusive<usize>>)
    ensures
        r@.len() == NUM_RANGES,
        forall|i: int|
            0 <= i < r@.len() ==> (#[trigger] r@[i])@.start == range_lo(i) && r@[i]@.end
                == range_hi(i) && !r@[i]@.exhausted,
{
    let mut r: Vec<RangeInclusive<usize>> = Vec::new();
    r.push(RangeInclusive::new(0, 10));
    r.push(RangeInclusive::new(10, 100));
    r.push(RangeInclusive::new(100, 1000));
    r.push(RangeInclusive::new(1000, 10000));
    r.push(RangeInclusive::new(10000, usize::MAX));
    r
}

/// The index of the first range of `ranges()` that contains `v`.
pub fn classify(v: usize) -> (i: usize)
    ensures
        i as int == classify_spec(v),
{
    let rs = ranges();
    let n = rs.len();
    let mut i: usize = 0;
    while i < n
        invariant
            n == NUM_RANGES,
            0 <= i <= n,
            rs@.len() == NUM_RANGES,
            forall|k: int|
                0 <= k < rs@.len() ==> (#[trigger] rs@[k])@.start == range_lo(k) && rs@[k]@.end
                    == range_hi(k) && !rs@[k]@.exhausted,
            forall|j: int| 0 <= j < i ==> !in_range(j, v),
        decreases n - i,
    {
        if rs[i].contains(&v) {
            proof {
                lemma_first_match_is_classify(i as int, v);
            }
            return i;
        }
        i = i + 1;
    }
    // never reached: the ranges cover the whole domain, so the loop
    // always finds a match
    proof {
        assert(in_range(classify_spec(v), v));
        assert(false);
    }
    0
}

/// The smallest matching index is exactly `classify_spec(v)`.
proof fn lemma_first_match_is_classify(i: int, v: usize)
    requires
        0 <= i < NUM_RANGES,
        in_range(i, v),
        forall|j: int| 0 <= j < i ==> !in_range(j, v),
    ensures
        i == classify_spec(v),
{
    if i >= 1 {
        assert(!in_range(0, v));
    }
    if i >= 2 {
        assert(!in_range(1, v));
    }
    if i >= 3 {
        assert(!in_range(2, v));
    }
    if i >= 4 {
        assert(!in_range(3, v));
    }
}

/// Every value has exactly one classification: `classify_spec(v)` is a
/// valid range index, its range contains `v`, no earlier range does, and
/// any index with those properties equals `classify_spec(v)`.
pub proof fn lemma_classify_first_match(v: usize)
    ensures
        0 <= classify_spec(v) < NUM_RANGES,
        in_range(classify_spec(v), v),
        forall|j: int| 0 <= j < classify_spec(v) ==> !in_range(j, v),
        forall|j: int|
            0 <= j < NUM_RANGES && in_range(j, v) && (forall|k: int| 0 <= k < j ==> !in_range(k, v))
                ==> j == classify_spec(v),
{
    assert forall|j: int|
        0 <= j < NUM_RANGES && in_range(j, v) && (forall|k: int| 0 <= k < j ==> !in_range(k, v))
            implies j == classify_spec(v) by {
        lemma_first_match_is_classify(j, v);
    }
}

} // verus!
