//! The best range that straddles a split point.

use vstd::prelude::*;

use crate::sums::{
    lemma_extend_left, lemma_extend_right, lemma_range_sum_fits, lemma_split, range_sum, MAX_LEN,
};

verus! {

/// Start of the best suffix of `s[low..=mid]`: the scan runs from `mid` down to
/// `low` and moves only on a strictly greater sum, so among equal sums the start
/// nearest to `mid` is kept.
pub open spec fn best_suffix_start(s: Seq<i32>, low: int, mid: int) -> int
    decreases mid - low,
{
    if low >= mid {
        mid
    } else {
        let b = best_suffix_start(s, low + 1, mid);
        if range_sum(s, low, mid) > range_sum(s, b, mid) {
            low
        } else {
            b
        }
    }
}

/// End of the best prefix of `s[start..=high]`: the scan runs from `start` up to
/// `high` and moves only on a strictly greater sum, so among equal sums the end
/// nearest to `start` is kept.
pub open spec fn best_prefix_end(s: Seq<i32>, start: int, high: int) -> int
    decreases high - start,
{
    if high <= start {
        start
    } else {
        let b = best_prefix_end(s, start, high - 1);
        if range_sum(s, start, high) > range_sum(s, start, b) {
            high
        } else {
            b
        }
    }
}

/// `i` is the nearest start to `mid` among those of maximal suffix sum over `[low, mid]`.
pub open spec fn is_best_suffix_start(s: Seq<i32>, low: int, mid: int, i: int) -> bool {
    &&& low <= i <= mid
    &&& forall|k: int| low <= k <= mid ==> range_sum(s, k, mid) <= range_sum(s, i, mid)
    &&& forall|k: int| i < k <= mid ==> range_sum(s, k, mid) < range_sum(s, i, mid)
}

/// `j` is the nearest end to `start` among those of maximal prefix sum over `[start, high]`.
pub open spec fn is_best_prefix_end(s: Seq<i32>, start: int, high: int, j: int) -> bool {
    &&& start <= j <= high
    &&& forall|k: int| start <= k <= high ==> range_sum(s, start, k) <= range_sum(s, start, j)
    &&& forall|k: int| start <= k < j ==> range_sum(s, start, k) < range_sum(s, start, j)
}

/// The crossing candidate `(start, end, sum)` for a split after `mid` within `[low, high]`.
pub open spec fn crossing(s: Seq<i32>, low: int, mid: int, high: int) -> (int, int, int) {
    let i = best_suffix_start(s, low, mid);
    let j = best_prefix_end(s, mid + 1, high);
    (i, j, range_sum(s, i, j))
}

/// The scan's choice of start is the nearest maximal suffix start.
pub proof fn lemma_best_suffix_start(s: Seq<i32>, low: int, mid: int)
    requires
        low <= mid,
    ensures
        is_best_suffix_start(s, low, mid, best_suffix_start(s, low, mid)),
    decreases mid - low,
{
    if low < mid {
        lemma_best_suffix_start(s, low + 1, mid);
    }
}

/// The scan's choice of end is the nearest maximal prefix end.
pub proof fn lemma_best_prefix_end(s: Seq<i32>, start: int, high: int)
    requires
        start <= high,
    ensures
        is_best_prefix_end(s, start, high, best_prefix_end(s, start, high)),
    decreases high - start,
{
    if start < high {
        lemma_best_prefix_end(s, start, high - 1);
    }
}

/// Every range that holds both `mid` and `mid + 1` sums to at most the crossing candidate.
pub proof fn lemma_crossing_is_max(s: Seq<i32>, low: int, mid: int, high: int, i: int, j: int)
    requires
        low <= i <= mid < j <= high,
    ensures
        range_sum(s, i, j) <= crossing(s, low, mid, high).2,
{
    let bi = best_suffix_start(s, low, mid);
    let bj = best_prefix_end(s, mid + 1, high);
    lemma_best_suffix_start(s, low, mid);
    lemma_best_prefix_end(s, mid + 1, high);
    lemma_split(s, i, mid, j);
    lemma_split(s, bi, mid, bj);
    assert(range_sum(s, i, mid) <= range_sum(s, bi, mid));
    assert(range_sum(s, mid + 1, j) <= range_sum(s, mid + 1, bj));
}

/// Returns the best range `(start, end, sum)` that holds both `mid` and `mid + 1`,
/// with `low <= start <= mid < end <= high`.
pub fn find_max_crossing_subarray(arr: &[i32], low: usize, mid: usize, high: usize) -> (r: (
    usize,
    usize,
    i64,
))
    requires
        low <= mid < high < arr@.len(),
        arr@.len() <= MAX_LEN,
    ensures
        (r.0 as int, r.1 as int, r.2 as int) == crossing(arr@, low as int, mid as int, high as int),
        is_best_suffix_start(arr@, low as int, mid as int, r.0 as int),
        is_best_prefix_end(arr@, mid + 1, high as int, r.1 as int),
        r.2 == range_sum(arr@, r.0 as int, r.1 as int),
        forall|i: int, j: int|
            low <= i <= mid < j <= high ==> #[trigger] range_sum(arr@, i, j) <= r.2,
{
    let ghost s = arr@;
    let mut sum: i64 = arr[mid] as i64;
    let mut left_sum: i64 = sum;
    let mut max_left: usize = mid;
    let mut i: usize = mid;
    while i > low
        invariant
            s == arr@,
            low <= i <= mid < high < s.len(),
            s.len() <= MAX_LEN,
            sum == range_sum(s, i as int, mid as int),
            max_left == best_suffix_start(s, i as int, mid as int),
            left_sum == range_sum(s, max_left as int, mid as int),
        decreases i,
    {
        i -= 1;
        proof {
            lemma_extend_left(s, i + 1, mid as int);
            lemma_range_sum_fits(s, i as int, mid as int);
        }
        sum += arr[i] as i64;
        if sum > left_sum {
            left_sum = sum;
            max_left = i;
        }
    }

    let mut right_sum: i64 = arr[mid + 1] as i64;
    sum = right_sum;
    let mut max_right: usize = mid + 1;
    let mut j: usize = mid + 1;
    while j < high
        invariant
            s == arr@,
            low <= mid < j <= high < s.len(),
            s.len() <= MAX_LEN,
            sum == range_sum(s, mid + 1, j as int),
            max_right == best_prefix_end(s, mid + 1, j as int),
            right_sum == range_sum(s, mid + 1, max_right as int),
        decreases high - j,
    {
        j += 1;
        proof {
            lemma_extend_right(s, mid + 1, j - 1);
            lemma_range_sum_fits(s, mid + 1, j as int);
        }
        sum += arr[j] as i64;
        if sum > right_sum {
            right_sum = sum;
            max_right = j;
        }
    }

    proof {
        lemma_best_suffix_start(s, low as int, mid as int);
        lemma_best_prefix_end(s, mid + 1, high as int);
        lemma_range_sum_fits(s, max_left as int, max_right as int);
        assert forall|i: int, j: int| low <= i <= mid < j <= high implies #[trigger] range_sum(
            s,
            i,
            j,
        ) <= range_sum(s, max_left as int, max_right as int) by {
            lemma_crossing_is_max(s, low as int, mid as int, high as int, i, j);
        }
    }
    (max_left, max_right, left_sum + right_sum)
}

} // verus!
