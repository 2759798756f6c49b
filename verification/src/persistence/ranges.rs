//! Finding the batch that holds an item: batches are named by the numbers
//! that bound them, and the sorted list of those numbers splits the item
//! numbers into ranges.

use vstd::prelude::*;

verus! {

/// `s` is sorted in strictly increasing order.
pub open spec fn strictly_sorted(s: Seq<usize>) -> bool {
    forall|i: int, j: int| 0 <= i < j < s.len() ==> s[i] < s[j]
}

/// The number of items of `s` below `v`.
pub open spec fn count_below(s: Seq<usize>, v: usize) -> int
    decreases s.len(),
{
    if s.len() == 0 {
        0
    } else {
        count_below(s.drop_last(), v) + if s.last() < v {
            1int
        } else {
            0int
        }
    }
}

/// The range that `find_range_left_idx` reports for `idx`: where `idx` is a
/// bound, the range it starts unless it is the last bound; elsewhere the
/// range whose interior holds `idx`, except in the last range.
pub open spec fn spec_range_left_idx(idx: usize, ranges: Seq<usize>) -> Option<usize> {
    if ranges.contains(idx) {
        let i = choose|i: int| 0 <= i < ranges.len() && ranges[i] == idx;
        if i >= ranges.len() - 1 {
            None
        } else {
            Some(i as usize)
        }
    } else {
        let p = count_below(ranges, idx);
        if p > 0 && p < ranges.len() - 1 {
            Some((p - 1) as usize)
        } else {
            None
        }
    }
}

proof fn lemma_count_below_sorted(s: Seq<usize>, v: usize, k: int)
    requires
        strictly_sorted(s),
        0 <= k <= s.len(),
        forall|j: int| 0 <= j < k ==> s[j] < v,
        forall|j: int| k <= j < s.len() ==> s[j] >= v,
    ensures
        count_below(s, v) == k,
    decreases s.len(),
{
    if s.len() > 0 {
        if k == s.len() {
            lemma_count_below_sorted(s.drop_last(), v, k - 1);
        } else {
            lemma_count_below_sorted(s.drop_last(), v, k);
        }
    }
}

/// The index of the range that holds `idx`, as `BatchDeserializerLocal`
/// computes it from a binary search.
pub fn find_range_left_idx(idx: &usize, ranges: &Vec<usize>) -> (r: Option<usize>)
    requires
        strictly_sorted(ranges@),
    ensures
        r == spec_range_left_idx(*idx, ranges@),
{
    let n = ranges.len();
    // `lo` is the number of bounds below `idx`.
    let mut lo: usize = 0;
    let mut hi: usize = n;
    while lo < hi
        invariant
            n == ranges@.len(),
            strictly_sorted(ranges@),
            0 <= lo <= hi <= n,
            forall|j: int| 0 <= j < lo ==> ranges@[j] < *idx,
            forall|j: int| hi <= j < n ==> ranges@[j] >= *idx,
        decreases hi - lo,
    {
        let mid = lo + (hi - lo) / 2;
        if ranges[mid] < *idx {
            lo = mid + 1;
        } else {
            hi = mid;
        }
    }
    proof {
        lemma_count_below_sorted(ranges@, *idx, lo as int);
    }
    if lo < n && ranges[lo] == *idx {
        proof {
            assert(ranges@.contains(*idx));
            let i = choose|i: int| 0 <= i < ranges@.len() && ranges@[i] == *idx;
            if i != lo {
                if i < lo {
                    assert(ranges@[i] < *idx);
                } else {
                    assert(ranges@[lo as int] < ranges@[i]);
                }
            }
        }
        if lo >= n - 1 {
            None
        } else {
            Some(lo)
        }
    } else {
        proof {
            if ranges@.contains(*idx) {
                let i = choose|i: int| 0 <= i < ranges@.len() && ranges@[i] == *idx;
                if i < lo {
                    assert(ranges@[i] < *idx);
                } else if i > lo {
                    assert(ranges@[lo as int] < ranges@[i]);
                    assert(ranges@[lo as int] >= *idx);
                }
            }
        }
        if lo > 0 && lo < n - 1 {
            Some(lo - 1)
        } else {
            None
        }
    }
}

/// Where item `idx` is stored: the batch and the position in the batch.
pub open spec fn spec_locate_item(idx: usize, ranges: Seq<usize>) -> Option<(usize, usize)> {
    match spec_range_left_idx(idx, ranges) {
        Some(f) => Some((f, (idx - ranges[f as int]) as usize)),
        None => None,
    }
}

/// The batch that holds item `idx` and its position in that batch, as
/// `BatchDeserializerLocal::get` finds them.
pub fn locate_item(idx: usize, ranges: &Vec<usize>) -> (r: Option<(usize, usize)>)
    requires
        strictly_sorted(ranges@),
    ensures
        r == spec_locate_item(idx, ranges@),
        r matches Some((f, inner)) ==> f + 1 < ranges@.len() && ranges@[f as int] <= idx
            < ranges@[f + 1],
{
    match find_range_left_idx(&idx, ranges) {
        Some(f) => {
            proof {
                assert(ranges@.len() == ranges.len());
                if ranges@.contains(idx) {
                    let i = choose|i: int| 0 <= i < ranges@.len() && ranges@[i] == idx;
                    assert(0 <= i < ranges@.len() && ranges@[i] == idx);
                    assert(i < ranges@.len() - 1);
                    assert(spec_range_left_idx(idx, ranges@) == Some(i as usize));
                } else {
                    let p = count_below(ranges@, idx);
                    assert(p > 0 && p < ranges@.len() - 1);
                    assert(spec_range_left_idx(idx, ranges@) == Some((p - 1) as usize));
                    lemma_count_below_prefix(ranges@, idx, f as int);
                    if ranges@[f + 1] < idx {
                        lemma_count_below_at_least(ranges@, idx, f + 1);
                    }
                    assert(ranges@[f + 1] != idx);
                }
            }
            Some((f, idx - ranges[f]))
        },
        None => None,
    }
}

/// An item that a batch holds lies in that batch's range.
pub proof fn lemma_locate_item_bounds(idx: usize, ranges: Seq<usize>)
    requires
        strictly_sorted(ranges),
        ranges.len() <= usize::MAX,
    ensures
        spec_locate_item(idx, ranges) matches Some((f, inner)) ==> f + 1 < ranges.len()
            && ranges[f as int] <= idx < ranges[f + 1] && inner == idx - ranges[f as int],
{
    if let Some(f) = spec_range_left_idx(idx, ranges) {
        if ranges.contains(idx) {
            let i = choose|i: int| 0 <= i < ranges.len() && ranges[i] == idx;
            assert(0 <= i < ranges.len() && ranges[i] == idx);
        } else {
            let p = count_below(ranges, idx);
            lemma_count_below_bound(ranges, idx);
            lemma_count_below_prefix(ranges, idx, f as int);
            if ranges[f + 1] < idx {
                lemma_count_below_at_least(ranges, idx, f + 1);
            }
            assert(ranges[f + 1] != idx);
        }
    }
}

proof fn lemma_count_below_prefix(s: Seq<usize>, v: usize, f: int)
    requires
        strictly_sorted(s),
        0 <= f,
        f + 1 == count_below(s, v),
        f + 1 <= s.len(),
    ensures
        s[f] < v,
    decreases s.len(),
{
    lemma_count_below_bound(s, v);
    if s.len() > 0 {
        if s.last() < v {
            if f + 1 == s.len() {
            } else {
                assert(s[f] < s.last());
            }
        } else {
            lemma_count_below_bound(s.drop_last(), v);
            lemma_count_below_prefix(s.drop_last(), v, f);
        }
    }
}

proof fn lemma_count_below_at_least(s: Seq<usize>, v: usize, j: int)
    requires
        strictly_sorted(s),
        0 <= j < s.len(),
        s[j] < v,
    ensures
        count_below(s, v) >= j + 1,
    decreases s.len(),
{
    lemma_count_below_bound(s.drop_last(), v);
    if j == s.len() - 1 {
        if j > 0 {
            lemma_count_below_at_least(s.drop_last(), v, j - 1);
        }
    } else {
        lemma_count_below_at_least(s.drop_last(), v, j);
    }
}

proof fn lemma_count_below_bound(s: Seq<usize>, v: usize)
    ensures
        0 <= count_below(s, v) <= s.len(),
    decreases s.len(),
{
    if s.len() > 0 {
        lemma_count_below_bound(s.drop_last(), v);
    }
}

} // verus!
