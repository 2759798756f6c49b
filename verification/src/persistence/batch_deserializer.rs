//! Reading a recorded run back: items are found by number through the
//! ranges that the batches cover, and the batches come through a cache that
//! loads ahead the neighbouring ones.

use super::adjacent_index_prediction::{
    model_avg, seq_sum, AdjacentIndexPrediction, AdjacentModel, PreloadPrediction,
};
use super::batch_serializer::{decompress, gunzip};
use super::preload_cache::{share, PreloadCache, PreloadCacheDelegate};
use super::ranges::{locate_item, spec_locate_item, strictly_sorted};
use std::sync::Arc;
use vstd::prelude::*;

verus! {

/// A batch as it is read back: its header, if any, and its items, each
/// with its number.
pub type Batch<T, U> = (Arc<Option<T>>, Vec<Arc<(usize, U)>>);

/// The frame inside the bytes of a batch file: the file's bytes
/// decompressed, or `None` where they are not a gzip stream. A batch that
/// a serializer emitted gives back its frame.
pub fn unpack_batch(data: &[u8]) -> (r: Option<Vec<u8>>)
    ensures
        r is Some <==> gunzip(data@) is Some,
        r matches Some(d) ==> gunzip(data@) == Some(d@),
{
    decompress(data)
}

proof fn lemma_seq_sum_bound(s: Seq<usize>, m: int)
    requires
        forall|i: int| 0 <= i < s.len() ==> s[i] <= m,
        m >= 0,
    ensures
        0 <= seq_sum(s) <= s.len() * m,
    decreases s.len(),
{
    if s.len() > 0 {
        lemma_seq_sum_bound(s.drop_last(), m);
        assert((s.len() - 1) * m + m == s.len() * m) by (nonlinear_arith);
    }
}

proof fn lemma_avg_bound(model: AdjacentModel, m: int)
    requires
        forall|i: int| 0 <= i < model.history.len() ==> model.history[i] <= m,
        m >= 0,
    ensures
        0 <= model_avg(model) <= m,
{
    if model.history.len() > 0 {
        lemma_seq_sum_bound(model.history, m);
        let n = model.history.len() as int;
        let s = seq_sum(model.history);
        assert(0 <= s / n <= m) by (nonlinear_arith)
            requires
                0 <= s <= n * m,
                n > 0,
        ;
    }
}

/// Reads items back from batches: `idx_ranges` holds the numbers that
/// bound the batches, and batch `f` holds the items from `idx_ranges[f]`
/// up to, but not including, `idx_ranges[f + 1]`.
pub struct BatchDeserializerLocal<T, U, D> {
    cache: PreloadCache<AdjacentIndexPrediction, D, Batch<T, U>>,
    idx_ranges: Vec<usize>,
}

impl<T, U, D: PreloadCacheDelegate<usize, Batch<T, U>>> BatchDeserializerLocal<T, U, D> {
    /// The source of the batches.
    pub closed spec fn delegate(&self) -> D {
        self.cache.delegate()
    }

    /// The numbers that bound the batches.
    pub closed spec fn ranges(&self) -> Seq<usize> {
        self.idx_ranges@
    }

    /// The bounds are sorted and few enough that the prediction's sums stay
    /// in range; the prediction remembers ten requests, loads one batch
    /// back and two ahead, and has only seen batch numbers.
    pub closed spec fn wf(&self) -> bool {
        let p = self.cache.predictor();
        &&& strictly_sorted(self.idx_ranges@)
        &&& self.idx_ranges@.len() * 16 <= usize::MAX
        &&& self.cache.wf()
        &&& p.can_predict()
        &&& p@.history_size == 10
        &&& p@.forward_size == 2
        &&& p@.backward_size == 1
        &&& forall|i: int| 0 <= i < p@.history.len() ==> p@.history[i] < self.idx_ranges@.len()
    }

    /// Whether the batch that holds item `idx`, when the source has it,
    /// holds as many items as its range says.
    pub open spec fn holds_item(&self, idx: usize) -> bool {
        match spec_locate_item(idx, self.ranges()) {
            Some((f, inner)) => match self.delegate().spec_get(f) {
                Some(batch) => inner < batch.1.len(),
                None => true,
            },
            None => true,
        }
    }

    /// Batch `f` as the source has it.
    pub open spec fn batch_of(&self, f: usize) -> Batch<T, U> {
        self.delegate().spec_get(f)->0
    }

    /// Every batch that the source has holds as many items as its range.
    pub open spec fn batches_complete(&self) -> bool {
        forall|f: usize|
            #![trigger self.delegate().spec_get(f)]
            f + 1 < self.ranges().len() && self.delegate().spec_get(f) is Some ==> self.batch_of(f).1.len() >= self.ranges()[f + 1] - self.ranges()[f as int]
    }

    /// Every item of every batch that the source has carries its own number.
    pub open spec fn batches_numbered(&self) -> bool {
        forall|f: usize, i: int|
            #![trigger self.batch_of(f).1[i]]
            f + 1 < self.ranges().len() && self.delegate().spec_get(f) is Some && 0 <= i
                < self.batch_of(f).1.len() ==> self.batch_of(f).1[i].0
                == self.ranges()[f as int] + i
    }

    /// Complete batches hold every item that their ranges cover, and
    /// numbered ones give back each item under its own number.
    pub proof fn lemma_complete_batches_hold_items(&self, idx: usize)
        requires
            self.wf(),
            self.batches_complete(),
        ensures
            self.holds_item(idx),
            self.batches_numbered() ==> (self.read_item(idx) matches Some((header, item))
                ==> item.0 == idx),
    {
        match spec_locate_item(idx, self.ranges()) {
            Some((f, inner)) => {
                super::ranges::lemma_locate_item_bounds(idx, self.ranges());
                if self.delegate().spec_get(f) is Some {
                    assert(self.batch_of(f).1.len() >= self.ranges()[f + 1]
                        - self.ranges()[f as int]);
                }
            },
            None => {},
        }
    }

    /// What reading item `idx` gives: the header and the item of the batch
    /// that holds it, or nothing where no batch holds it or the source has
    /// no such batch.
    pub open spec fn read_item(&self, idx: usize) -> Option<(Arc<Option<T>>, Arc<(usize, U)>)> {
        match spec_locate_item(idx, self.ranges()) {
            Some((f, inner)) => match self.delegate().spec_get(f) {
                Some(batch) => Some((batch.0, batch.1[inner as int])),
                None => None,
            },
            None => None,
        }
    }

    /// A reader over the batches of `delegate` bounded by `idx_ranges`.
    pub fn new(delegate: D, idx_ranges: Vec<usize>) -> (r: Self)
        requires
            strictly_sorted(idx_ranges@),
            idx_ranges@.len() * 16 <= usize::MAX,
        ensures
            r.wf(),
            r.delegate() == delegate,
            r.ranges() == idx_ranges@,
    {
        let predictor = AdjacentIndexPrediction::new().with_history_size(10).with_backward_size(
            1,
        ).with_forward_size(2);
        let cache = PreloadCache::new(predictor, delegate);
        Self { cache, idx_ranges }
    }

    /// Item `idx` with the header of its batch.
    pub fn get(&mut self, idx: usize) -> (r: Option<(Arc<Option<T>>, Arc<(usize, U)>)>)
        requires
            old(self).wf(),
            old(self).holds_item(idx),
        ensures
            final(self).wf(),
            final(self).delegate() == old(self).delegate(),
            final(self).ranges() == old(self).ranges(),
            r == old(self).read_item(idx),
    {
        match locate_item(idx, &self.idx_ranges) {
            Some((file_idx, inner_idx)) => {
                let ghost len = self.idx_ranges@.len();
                let ghost model = self.cache.predictor()@;
                proof {
                    self.cache.predictor().lemma_history_within_size();
                    lemma_seq_sum_bound(model.history, len - 1);
                    assert(model.history.len() * (len - 1) <= 10 * len) by (nonlinear_arith)
                        requires
                            model.history.len() <= 10,
                            len >= 1,
                    ;
                    let next = AdjacentIndexPrediction::after_register(model, file_idx);
                    assert forall|i: int| 0 <= i < next.history.len() implies next.history[i]
                        < len by {
                        let pushed = model.history.push(file_idx);
                        if pushed.len() > 10 {
                            assert(next.history[i] == pushed[i + 1]);
                        } else {
                            assert(next.history[i] == pushed[i]);
                        }
                    }
                    lemma_avg_bound(next, len - 1);
                }
                match self.cache.get(&file_idx) {
                    Some(batch) => {
                        let header = share(&batch.0);
                        let item = share(&batch.1[inner_idx]);
                        Some((header, item))
                    },
                    None => None,
                }
            },
            None => None,
        }
    }
}

} // verus!
