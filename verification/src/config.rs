//! The parts of a board's configuration that the library reads: the
//! neighbour counts of an evolution rule.

use std::collections::HashSet;
use vstd::prelude::*;

verus! {

broadcast use vstd::std_specs::hash::group_hash_axioms;

/// Neighbour counts as a configuration writes them: one count, or a range
/// given by its first and last entries, both included.
pub enum CellCount {
    Integer(usize),
    Range(Vec<usize>),
}

/// The counts that `c` stands for.
pub open spec fn cell_count_set(c: CellCount) -> Set<usize> {
    match c {
        CellCount::Integer(v) => set![v],
        CellCount::Range(r) => Set::new(|k: usize| r@[0] <= k <= r@.last()),
    }
}

/// The counts that any of `counts` stands for.
pub open spec fn cell_counts_set(counts: Seq<CellCount>) -> Set<usize> {
    Set::new(|k: usize| exists|i: int| 0 <= i < counts.len() && cell_count_set(counts[i]).contains(k))
}

/// Whether every range in `counts` has a first and a last entry.
pub open spec fn ranges_nonempty(counts: Seq<CellCount>) -> bool {
    forall|i: int| 0 <= i < counts.len() ==> (#[trigger] counts[i] matches CellCount::Range(r) ==> r@.len() > 0)
}

/// Adds the counts from `lo` to `hi`, both included, to `set`.
fn insert_range(set: &mut HashSet<usize>, lo: usize, hi: usize)
    ensures
        final(set)@ == old(set)@ + Set::new(|k: usize| lo <= k <= hi),
{
    if lo > hi {
        assert(Set::new(|k: usize| lo <= k <= hi) =~= Set::empty());
        assert(set@ =~= old(set)@ + Set::new(|k: usize| lo <= k <= hi));
        return;
    }
    let mut k = lo;
    loop
        invariant
            lo <= k <= hi,
            set@ == old(set)@ + Set::new(|j: usize| lo <= j < k),
        decreases hi - k,
    {
        set.insert(k);
        if k == hi {
            assert(set@ =~= old(set)@ + Set::new(|j: usize| lo <= j <= hi));
            return;
        }
        assert(set@ =~= old(set)@ + Set::new(|j: usize| lo <= j < k + 1));
        k = k + 1;
    }
}

/// All the counts that `counts` stands for.
pub fn collect_cell_counts(counts: &Vec<CellCount>) -> (r: HashSet<usize>)
    requires
        ranges_nonempty(counts@),
    ensures
        r@ == cell_counts_set(counts@),
{
    let mut r: HashSet<usize> = HashSet::new();
    let n = counts.len();
    for i in 0..n
        invariant
            n == counts@.len(),
            ranges_nonempty(counts@),
            r@ == cell_counts_set(counts@.subrange(0, i as int)),
    {
        let ghost before = r@;
        match &counts[i] {
            CellCount::Integer(v) => {
                r.insert(*v);
            },
            CellCount::Range(range) => {
                assert(range@.len() > 0);
                let lo = range[0];
                let hi = range[range.len() - 1];
                insert_range(&mut r, lo, hi);
            },
        }
        proof {
            let sub = counts@.subrange(0, i + 1);
            assert(r@ == before + cell_count_set(counts@[i as int]));
            assert forall|k: usize| #[trigger] r@.contains(k) <==> cell_counts_set(sub).contains(k) by {
                if cell_count_set(counts@[i as int]).contains(k) {
                    assert(sub[i as int] == counts@[i as int]);
                }
                if cell_counts_set(counts@.subrange(0, i as int)).contains(k) {
                    let j = choose|j: int|
                        0 <= j < i && cell_count_set(counts@.subrange(0, i as int)[j]).contains(k);
                    assert(sub[j] == counts@.subrange(0, i as int)[j]);
                }
                if cell_counts_set(sub).contains(k) {
                    let j = choose|j: int| 0 <= j < sub.len() && cell_count_set(sub[j]).contains(k);
                    if j < i {
                        assert(counts@.subrange(0, i as int)[j] == sub[j]);
                    }
                }
            }
            assert(r@ =~= cell_counts_set(sub));
        }
    }
    assert(counts@.subrange(0, n as int) =~= counts@);
    r
}

} // verus!
