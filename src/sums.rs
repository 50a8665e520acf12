//! The mathematical model of sums over a sequence of `i32` values.

use vstd::prelude::*;

verus! {

/// Sum of the first `k` elements of `s`.
pub open spec fn prefix_sum(s: Seq<i32>, k: int) -> int
    decreases k,
{
    if k <= 0 {
        0
    } else {
        prefix_sum(s, k - 1) + s[k - 1] as int
    }
}

/// Exact sum of `s[i..=j]`, both ends included; 0 when `j < i`.
pub open spec fn range_sum(s: Seq<i32>, i: int, j: int) -> int {
    prefix_sum(s, j + 1) - prefix_sum(s, i)
}

/// Longest sequence the search accepts: a sum of at most this many `i32` values fits in an `i64`.
pub const MAX_LEN: usize = 0xffff_ffff;

/// A sum of `n` elements of type `i32` lies between `n * i32::MIN` and `n * i32::MAX`.
pub proof fn lemma_range_sum_bounds(s: Seq<i32>, i: int, j: int)
    requires
        0 <= i <= j + 1 <= s.len(),
    ensures
        -(j + 1 - i) * 0x8000_0000 <= range_sum(s, i, j) <= (j + 1 - i) * 0x7fff_ffff,
    decreases j + 1 - i,
{
    if j + 1 > i {
        lemma_range_sum_bounds(s, i, j - 1);
    }
}

/// Every range sum of a sequence no longer than `MAX_LEN` fits in an `i64`.
pub proof fn lemma_range_sum_fits(s: Seq<i32>, i: int, j: int)
    requires
        0 <= i <= j + 1 <= s.len(),
        s.len() <= MAX_LEN,
    ensures
        i64::MIN <= range_sum(s, i, j) <= i64::MAX,
{
    lemma_range_sum_bounds(s, i, j);
}

/// Growing a range by one element on the left adds that element.
pub proof fn lemma_extend_left(s: Seq<i32>, i: int, j: int)
    requires
        0 < i <= j + 1 <= s.len(),
    ensures
        range_sum(s, i - 1, j) == s[i - 1] as int + range_sum(s, i, j),
{
}

/// Growing a range by one element on the right adds that element.
pub proof fn lemma_extend_right(s: Seq<i32>, i: int, j: int)
    requires
        0 <= i <= j + 1 < s.len(),
    ensures
        range_sum(s, i, j + 1) == range_sum(s, i, j) + s[j + 1] as int,
{
}

/// A range split after `m` sums to the sums of its two parts.
pub proof fn lemma_split(s: Seq<i32>, i: int, m: int, j: int)
    ensures
        range_sum(s, i, j) == range_sum(s, i, m) + range_sum(s, m + 1, j),
{
}

} // verus!
