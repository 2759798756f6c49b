//! Predicts which indices will be asked for next: a window around the
//! average of the recent requests.

use std::collections::HashSet;
use vstd::prelude::*;

verus! {

broadcast use vstd::std_specs::hash::group_hash_axioms;

/// Learns from the keys asked for and predicts the keys asked for next.
pub trait PreloadPrediction<T>: View + Sized {
    /// Whether `value` can be registered.
    spec fn can_register(&self, value: T) -> bool;

    /// The model after `value` is registered.
    spec fn after_register(model: Self::V, value: T) -> Self::V;

    /// Whether a prediction can be computed.
    spec fn can_predict(&self) -> bool;

    /// Whether a prediction can be computed from `model`.
    spec fn model_can_predict(model: Self::V) -> bool;

    /// The predicted keys.
    spec fn spec_predict(model: Self::V) -> Set<T>;

    fn register(&mut self, value: &T)
        requires
            old(self).can_register(*value),
        ensures
            final(self)@ == Self::after_register(old(self)@, *value),
            final(self).can_predict() == Self::model_can_predict(final(self)@),
    ;

    fn predict(&self) -> (r: HashSet<T>)
        requires
            self.can_predict(),
        ensures
            r@ == Self::spec_predict(self@),
    ;
}

/// The sum of `s`.
pub open spec fn seq_sum(s: Seq<usize>) -> int
    decreases s.len(),
{
    if s.len() == 0 {
        0
    } else {
        seq_sum(s.drop_last()) + s.last()
    }
}

proof fn lemma_seq_sum_drop_first(s: Seq<usize>)
    requires
        s.len() > 0,
    ensures
        seq_sum(s) == s[0] + seq_sum(s.drop_first()),
    decreases s.len(),
{
    if s.len() > 1 {
        lemma_seq_sum_drop_first(s.drop_last());
        assert(s.drop_last().drop_first() == s.drop_first().drop_last());
        assert(s.drop_first().last() == s.last());
        assert(s.drop_last()[0] == s[0]);
        assert(seq_sum(s.drop_first()) == seq_sum(s.drop_first().drop_last()) + s.drop_first().last());
    } else {
        assert(s.drop_first().len() == 0);
        assert(s.drop_last().len() == 0);
        assert(seq_sum(s.drop_last()) == 0);
        assert(seq_sum(s.drop_first()) == 0);
        assert(s.last() == s[0]);
    }
}

proof fn lemma_seq_sum_nonneg(s: Seq<usize>)
    ensures
        seq_sum(s) >= 0,
    decreases s.len(),
{
    if s.len() > 0 {
        lemma_seq_sum_nonneg(s.drop_last());
    }
}

/// The model of a prediction: window sizes and the recent requests.
pub ghost struct AdjacentModel {
    pub forward_size: usize,
    pub backward_size: usize,
    pub history_size: usize,
    pub history: Seq<usize>,
}

/// The average of the recent requests, rounded down, or zero without any.
pub open spec fn model_avg(m: AdjacentModel) -> int {
    if m.history.len() == 0 {
        0
    } else {
        seq_sum(m.history) / (m.history.len() as int)
    }
}

/// Predicts the window from `backward_size` below to `forward_size` above
/// the average of the last `history_size` requests (cut at zero).
pub struct AdjacentIndexPrediction {
    forward_size: usize,
    backward_size: usize,
    history_size: usize,
    history: (usize, Vec<usize>),
}

impl View for AdjacentIndexPrediction {
    type V = AdjacentModel;

    closed spec fn view(&self) -> AdjacentModel {
        AdjacentModel {
            forward_size: self.forward_size,
            backward_size: self.backward_size,
            history_size: self.history_size,
            history: self.history.1@,
        }
    }
}

impl AdjacentIndexPrediction {
    /// The running sum is the sum of the history, which holds at most
    /// `history_size` requests.
    pub closed spec fn wf(&self) -> bool {
        &&& self.history.0 as int == seq_sum(self.history.1@)
        &&& self.history.1@.len() <= self.history_size
    }

    /// A prediction in order remembers no more requests than its history
    /// size.
    pub proof fn lemma_history_within_size(&self)
        requires
            self.wf(),
        ensures
            self@.history.len() <= self@.history_size,
    {
    }

    /// No window on either side and a history of ten requests.
    pub fn new() -> (r: Self)
        ensures
            r.wf(),
            r@ == (AdjacentModel { forward_size: 0, backward_size: 0, history_size: 10, history: seq![] }),
    {
        let default_history_size: usize = 10;
        Self {
            forward_size: 0,
            backward_size: 0,
            history_size: default_history_size,
            history: (0, Vec::with_capacity(default_history_size)),
        }
    }

    /// The same prediction remembering the last `size` requests.
    pub fn with_history_size(self, size: usize) -> (r: Self)
        requires
            self@.history.len() == 0,
        ensures
            r.wf(),
            r@ == (AdjacentModel { history_size: size, history: seq![], ..self@ }),
    {
        let mut res = self;
        res.history_size = size;
        res.history = (0, Vec::with_capacity(size));
        res
    }

    /// The same prediction with `size` keys above the average.
    pub fn with_forward_size(self, size: usize) -> (r: Self)
        requires
            self.wf(),
            self@.history.len() == 0,
        ensures
            r.wf(),
            r@ == (AdjacentModel { forward_size: size, ..self@ }),
    {
        let mut res = self;
        res.forward_size = size;
        res
    }

    /// The same prediction with `size` keys below the average.
    pub fn with_backward_size(self, size: usize) -> (r: Self)
        requires
            self.wf(),
            self@.history.len() == 0,
        ensures
            r.wf(),
            r@ == (AdjacentModel { backward_size: size, ..self@ }),
    {
        let mut res = self;
        res.backward_size = size;
        res
    }

    /// The number of predicted keys when the window is not cut at zero.
    fn buffer_len(&self) -> (r: usize)
        requires
            1 + self.forward_size + self.backward_size <= usize::MAX,
        ensures
            r == 1 + self@.forward_size + self@.backward_size,
    {
        1 + self.forward_size + self.backward_size
    }

    fn cur_avg(&self) -> (r: usize)
        requires
            self.wf(),
        ensures
            r as int == model_avg(self@),
    {
        if self.history.1.len() == 0 {
            0
        } else {
            proof {
                lemma_seq_sum_nonneg(self.history.1@);
            }
            self.history.0 / self.history.1.len()
        }
    }
}

impl PreloadPrediction<usize> for AdjacentIndexPrediction {
    /// The running sum must stay a `usize`.
    open spec fn can_register(&self, value: usize) -> bool {
        self.wf() && seq_sum(self@.history) + value <= usize::MAX
    }

    /// The request joins the history; the oldest one leaves once there are
    /// more than `history_size`.
    open spec fn after_register(model: AdjacentModel, value: usize) -> AdjacentModel {
        let pushed = model.history.push(value);
        AdjacentModel {
            history: if pushed.len() > model.history_size {
                pushed.drop_first()
            } else {
                pushed
            },
            ..model
        }
    }

    open spec fn can_predict(&self) -> bool {
        self.wf() && Self::model_can_predict(self@)
    }

    /// The end of the window must stay a `usize`.
    open spec fn model_can_predict(model: AdjacentModel) -> bool {
        model_avg(model) + model.forward_size + 1 <= usize::MAX
    }

    /// From `avg - min(backward_size, avg)` to `avg + forward_size`.
    open spec fn spec_predict(model: AdjacentModel) -> Set<usize> {
        let avg = model_avg(model);
        let sub = if model.backward_size < avg {
            model.backward_size as int
        } else {
            avg
        };
        Set::new(|i: usize| avg - sub <= i < avg + model.forward_size + 1)
    }

    fn register(&mut self, value: &usize) {
        let ghost old_hist = self.history.1@;
        self.history.1.push(*value);
        self.history.0 = self.history.0 + *value;
        proof {
            assert(self.history.1@.drop_last() == old_hist);
        }
        if self.history.1.len() > self.history_size {
            let ghost full = self.history.1@;
            let pop = self.history.1.remove(0);
            proof {
                lemma_seq_sum_drop_first(full);
                lemma_seq_sum_nonneg(full.drop_first());
                assert(self.history.1@ == full.drop_first());
            }
            self.history.0 = self.history.0 - pop;
        }
        assert(self.wf());
    }

    fn predict(&self) -> (r: HashSet<usize>) {
        let cur_avg = self.cur_avg();
        let sub = if self.backward_size < cur_avg {
            self.backward_size
        } else {
            cur_avg
        };
        let start = cur_avg - sub;
        let end = cur_avg + self.forward_size + 1;
        let mut res: HashSet<usize> = HashSet::new();
        let mut i = start;
        while i < end
            invariant
                start <= i <= end,
                res@ == Set::new(|j: usize| start <= j < i),
            decreases end - i,
        {
            res.insert(i);
            assert(res@ =~= Set::new(|j: usize| start <= j < i + 1));
            i = i + 1;
        }
        assert(res@ =~= Self::spec_predict(self@));
        res
    }
}

/// The lowest predicted key: `backward_size` below the average, or zero
/// where that would fall below zero.
pub open spec fn window_start(model: AdjacentModel) -> int {
    if model.backward_size < model_avg(model) {
        model_avg(model) - model.backward_size
    } else {
        0
    }
}

/// The prediction is the window around the average request: it holds the
/// average, the `forward_size` keys above it and the `backward_size` keys
/// below it, and nothing else. Below zero the window is cut: it then starts
/// at zero.
pub proof fn lemma_prediction_window(model: AdjacentModel, k: usize)
    requires
        <AdjacentIndexPrediction as PreloadPrediction<usize>>::model_can_predict(model),
    ensures
        model_avg(model) >= 0,
        <AdjacentIndexPrediction as PreloadPrediction<usize>>::spec_predict(model).contains(
            model_avg(model) as usize,
        ),
        <AdjacentIndexPrediction as PreloadPrediction<usize>>::spec_predict(model).contains(k)
            <==> (model_avg(model) - model.backward_size <= k <= model_avg(model)
            + model.forward_size),
        <AdjacentIndexPrediction as PreloadPrediction<usize>>::spec_predict(model).contains(k)
            <==> (window_start(model) <= k <= model_avg(model) + model.forward_size),
        model.backward_size >= model_avg(model) ==> window_start(model) == 0
            && <AdjacentIndexPrediction as PreloadPrediction<usize>>::spec_predict(model).contains(0),
{
    if model.history.len() > 0 {
        lemma_seq_sum_nonneg(model.history);
        let n = model.history.len() as int;
        let s = seq_sum(model.history);
        assert(s / n >= 0) by (nonlinear_arith)
            requires
                s >= 0,
                n > 0,
        ;
    }
}

/// The model after registering `values`, in order, starting from `model`.
pub open spec fn registered(model: AdjacentModel, values: Seq<usize>) -> AdjacentModel
    decreases values.len(),
{
    if values.len() == 0 {
        model
    } else {
        <AdjacentIndexPrediction as PreloadPrediction<usize>>::after_register(
            registered(model, values.drop_last()),
            values.last(),
        )
    }
}

/// The last `n` items of `s`, or all of them where there are fewer.
pub open spec fn last_n(s: Seq<usize>, n: int) -> Seq<usize> {
    if s.len() <= n {
        s
    } else {
        s.subrange(s.len() - n, s.len() as int)
    }
}

/// The history slides: after any run of registrations, the prediction
/// remembers the last `history_size` requests, oldest first (all of them
/// while there are fewer), and its window sizes stay as they were.
pub proof fn lemma_history_slides(model: AdjacentModel, values: Seq<usize>)
    requires
        model.history.len() <= model.history_size,
    ensures
        registered(model, values).history == last_n(model.history + values, model.history_size as int),
        registered(model, values).forward_size == model.forward_size,
        registered(model, values).backward_size == model.backward_size,
        registered(model, values).history_size == model.history_size,
    decreases values.len(),
{
    if values.len() > 0 {
        let init = values.drop_last();
        let v = values.last();
        lemma_history_slides(model, init);
        let n = model.history_size as int;
        let big = model.history + values;
        let prev = model.history + init;
        assert(big == prev.push(v));
        let h = last_n(prev, n);
        let pushed = h.push(v);
        if prev.len() <= n {
            assert(pushed == big);
            if pushed.len() > n {
                assert(pushed.drop_first() =~= big.subrange(big.len() - n, big.len() as int));
            }
        } else {
            assert(pushed.drop_first() =~= big.subrange(big.len() - n, big.len() as int));
        }
    } else {
        assert(model.history + values =~= model.history);
    }
}

} // verus!
