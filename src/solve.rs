//! The divide-and-conquer search for the maximum-sum range.

use vstd::prelude::*;

use crate::crossing::{crossing, find_max_crossing_subarray, lemma_crossing_is_max};
use crate::sums::{range_sum, MAX_LEN};

verus! {

/// Of three candidates, the first whose sum is at least both others'.
pub open spec fn pick(
    left: (int, int, int),
    right: (int, int, int),
    cross: (int, int, int),
) -> (int, int, int) {
    if left.2 >= right.2 && left.2 >= cross.2 {
        left
    } else if right.2 >= left.2 && right.2 >= cross.2 {
        right
    } else {
        cross
    }
}

/// The candidate `(start, end, sum)` that the search returns on `[low, high]`:
/// a single element is its own answer; a longer range is split at its midpoint,
/// and the best range of the left half, of the right half and across the split
/// compete, ties going to the left half, then to the right half.
pub open spec fn max_subarray(s: Seq<i32>, low: int, high: int) -> (int, int, int)
    decreases high - low,
{
    if low >= high {
        (low, low, s[low] as int)
    } else {
        let mid = (low + high) / 2;
        pick(
            max_subarray(s, low, mid),
            max_subarray(s, mid + 1, high),
            crossing(s, low, mid, high),
        )
    }
}

/// `c` is a range `(start, end, sum)` within `[low, high]` whose sum is exact
/// and at least that of every non-empty range within `[low, high]`.
pub open spec fn is_max_range(s: Seq<i32>, low: int, high: int, c: (int, int, int)) -> bool {
    &&& low <= c.0 <= c.1 <= high
    &&& c.2 == range_sum(s, c.0, c.1)
    &&& forall|i: int, j: int| low <= i <= j <= high ==> #[trigger] range_sum(s, i, j) <= c.2
}

/// The search's answer is a maximum-sum range of `[low, high]`.
pub proof fn lemma_max_subarray_correct(s: Seq<i32>, low: int, high: int)
    requires
        0 <= low <= high < s.len(),
    ensures
        is_max_range(s, low, high, max_subarray(s, low, high)),
    decreases high - low,
{
    if low < high {
        let mid = (low + high) / 2;
        lemma_max_subarray_correct(s, low, mid);
        lemma_max_subarray_correct(s, mid + 1, high);
        crate::crossing::lemma_best_suffix_start(s, low, mid);
        crate::crossing::lemma_best_prefix_end(s, mid + 1, high);
        let l = max_subarray(s, low, mid);
        let r = max_subarray(s, mid + 1, high);
        let c = crossing(s, low, mid, high);
        assert forall|i: int, j: int| low <= i <= j <= high implies #[trigger] range_sum(
            s,
            i,
            j,
        ) <= max_subarray(s, low, high).2 by {
            if j <= mid {
                assert(range_sum(s, i, j) <= l.2);
            } else if i > mid {
                assert(range_sum(s, i, j) <= r.2);
            } else {
                lemma_crossing_is_max(s, low, mid, high, i, j);
            }
        }
    }
}

/// On a range of two or more elements split at its midpoint, the answer is the
/// left half's best whenever that reaches the overall maximum; otherwise the
/// right half's best whenever that reaches it; otherwise the crossing range.
pub proof fn lemma_tie_break(s: Seq<i32>, low: int, high: int)
    requires
        0 <= low < high < s.len(),
    ensures
        ({
            let mid = (low + high) / 2;
            let l = max_subarray(s, low, mid);
            let r = max_subarray(s, mid + 1, high);
            let c = crossing(s, low, mid, high);
            let m = max_subarray(s, low, high);
            &&& m.2 == l.2 || m.2 == r.2 || m.2 == c.2
            &&& l.2 <= m.2 && r.2 <= m.2 && c.2 <= m.2
            &&& l.2 == m.2 ==> m == l
            &&& l.2 < m.2 && r.2 == m.2 ==> m == r
            &&& l.2 < m.2 && r.2 < m.2 ==> m == c
        }),
{
}

/// Returns the maximum-sum range `(start, end, sum)` within `[low, high]`,
/// both ends included.
pub fn find_max_subarray(arr: &[i32], low: usize, high: usize) -> (r: (usize, usize, i64))
    requires
        low <= high < arr@.len(),
        arr@.len() <= MAX_LEN,
    ensures
        (r.0 as int, r.1 as int, r.2 as int) == max_subarray(arr@, low as int, high as int),
        low <= r.0 <= r.1 <= high,
        r.2 == range_sum(arr@, r.0 as int, r.1 as int),
        forall|i: int, j: int|
            low <= i <= j <= high ==> #[trigger] range_sum(arr@, i, j) <= r.2,
    decreases high - low,
{
    proof {
        lemma_max_subarray_correct(arr@, low as int, high as int);
    }
    if low == high {
        return (low, high, arr[low] as i64);
    }
    let mid = low + (high - low) / 2;
    assert(mid == (low + high) / 2);
    let (left_low, left_high, left_sum) = find_max_subarray(arr, low, mid);
    let (right_low, right_high, right_sum) = find_max_subarray(arr, mid + 1, high);
    let (cross_low, cross_high, cross_sum) = find_max_crossing_subarray(arr, low, mid, high);
    if left_sum >= right_sum && left_sum >= cross_sum {
        (left_low, left_high, left_sum)
    } else if right_sum >= left_sum && right_sum >= cross_sum {
        (right_low, right_high, right_sum)
    } else {
        (cross_low, cross_high, cross_sum)
    }
}

} // verus!
