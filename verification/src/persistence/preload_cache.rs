//! A cache in front of a slow source that loads ahead the keys a
//! prediction expects to be asked for next.
//!
//! Loading ahead runs as an update: it is planned at the end of a lookup
//! and takes effect at the next lookup that misses the cache.

use super::adjacent_index_prediction::PreloadPrediction;
use std::collections::{HashMap, HashSet};
use std::sync::Arc;
use vstd::prelude::*;
use vstd::std_specs::iter::IteratorSpec;

verus! {

broadcast use vstd::std_specs::hash::group_hash_axioms;

/// The slow source behind a cache, implemented by the users of the cache.
///
/// `get` gives what `spec_get` names, so two calls on one key give the same
/// value: a source that reads files meets this only while the files do not
/// change.
pub trait PreloadCacheDelegate<T, U> {
    /// What the source holds under `key`, if anything.
    spec fn spec_get(&self, key: T) -> Option<U>;

    fn get(&self, key: &T) -> (r: Option<U>)
        ensures
            r == self.spec_get(*key),
    ;
}

/// A second handle on the same shared value.
///
/// Trusted: `Arc::clone` returns a pointer to the same allocation, so the
/// value behind it is the value behind `a`.
#[verifier::external_body]
pub(crate) fn share<U>(a: &Arc<U>) -> (r: Arc<U>)
    ensures
        *r == **a,
{
    Arc::clone(a)
}

/// The elements of `s`, each once, in the order the set hands them out.
fn set_elements(s: &HashSet<usize>) -> (r: Vec<usize>)
    ensures
        r@.to_set() == s@,
{
    let ghost ks = vstd::std_specs::hash::spec_hash_keys_iter(s).remaining().unref();
    proof {
        vstd::std_specs::hash::axiom_spec_hash_keys_iter(s);
    }
    let mut r: Vec<usize> = Vec::new();
    for k in it: s.iter()
        invariant
            it.seq().unref() == ks,
            r@ == ks.take(it.index()),
    {
        r.push(*k);
        assert(r@ == ks.take(it.index() + 1));
    }
    assert(r@ == ks);
    r
}

/// The keys of `m`, each once, in the order the map hands them out.
fn map_keys<U>(m: &HashMap<usize, Arc<U>>) -> (r: Vec<usize>)
    ensures
        r@.to_set() == m@.dom(),
{
    let ghost ks = vstd::std_specs::hash::spec_keys_iter(m).remaining().unref();
    proof {
        vstd::std_specs::hash::axiom_spec_keys_iter(m);
    }
    let mut r: Vec<usize> = Vec::new();
    for k in it: m.keys()
        invariant
            it.seq().unref() == ks,
            r@ == ks.take(it.index()),
    {
        r.push(*k);
        assert(r@ == ks.take(it.index() + 1));
    }
    assert(r@ == ks);
    r
}

/// The values behind the shared handles of `m`.
pub open spec fn shared_values<U>(m: Map<usize, Arc<U>>) -> Map<usize, U> {
    m.map_values(|a: Arc<U>| *a)
}

/// The map that a list of entries builds when they are inserted in order.
pub open spec fn entries_map<U>(s: Seq<(usize, Arc<U>)>) -> Map<usize, U>
    decreases s.len(),
{
    if s.len() == 0 {
        Map::empty()
    } else {
        entries_map(s.drop_last()).insert(s.last().0, *s.last().1)
    }
}

/// A cache after an update: the keys in `extra` leave it, then the entries
/// of `appending` join it.
pub open spec fn applied<U>(cache: Map<usize, U>, extra: Set<usize>, appending: Map<usize, U>) -> Map<
    usize,
    U,
> {
    cache.remove_keys(extra).union_prefer_right(appending)
}

/// The keys that an update planned from `keys` and `prediction` removes.
pub open spec fn planned_extra(keys: Set<usize>, prediction: Set<usize>) -> Set<usize> {
    keys.difference(prediction)
}

/// The entries that an update planned from `keys` and `prediction` adds:
/// those of the predicted keys that are missing and that the source holds.
pub open spec fn planned_appending<U, D: PreloadCacheDelegate<usize, U>>(
    delegate: D,
    keys: Set<usize>,
    prediction: Set<usize>,
) -> Map<usize, U> {
    Map::new(
        |k: usize| prediction.contains(k) && !keys.contains(k) && delegate.spec_get(k) is Some,
        |k: usize| delegate.spec_get(k)->0,
    )
}

/// A cache of the values of `delegate`, filled ahead with the keys that
/// `predictor` expects.
pub struct PreloadCache<P, D, U> {
    predictor: P,
    delegate: D,
    cache: HashMap<usize, Arc<U>>,
    update: Option<(Vec<usize>, Vec<(usize, Arc<U>)>)>,
}

impl<P: PreloadPrediction<usize>, D: PreloadCacheDelegate<usize, U>, U> PreloadCache<P, D, U> {
    /// The prediction.
    pub closed spec fn predictor(&self) -> P {
        self.predictor
    }

    /// The source.
    pub closed spec fn delegate(&self) -> D {
        self.delegate
    }

    /// The cached values.
    pub closed spec fn cached(&self) -> Map<usize, U> {
        shared_values(self.cache@)
    }

    /// Whether an update is under way.
    pub closed spec fn is_updating_spec(&self) -> bool {
        self.update is Some
    }

    /// The keys that the update under way removes.
    pub closed spec fn pending_extra(&self) -> Set<usize> {
        match self.update {
            Some((extra, _)) => extra@.to_set(),
            None => Set::empty(),
        }
    }

    /// The entries that the update under way adds.
    pub closed spec fn pending_appending(&self) -> Map<usize, U> {
        match self.update {
            Some((_, appending)) => entries_map(appending@),
            None => Map::empty(),
        }
    }

    /// Every value in the cache, and every value an update brings, is the
    /// value of the source under its key.
    pub closed spec fn wf(&self) -> bool {
        &&& forall|k: usize| #[trigger]
            self.cached().contains_key(k) ==> self.delegate.spec_get(k) == Some(self.cached()[k])
        &&& forall|k: usize| #[trigger]
            self.pending_appending().contains_key(k) ==> self.delegate.spec_get(k) == Some(
                self.pending_appending()[k],
            )
    }

    /// The source.
    pub fn delegate_ref(&self) -> (r: &D)
        ensures
            *r == self.delegate(),
    {
        &self.delegate
    }

    /// An empty cache in front of `delegate`, with no update under way.
    pub fn new(predictor: P, delegate: D) -> (r: Self)
        ensures
            r.wf(),
            r.predictor() == predictor,
            r.delegate() == delegate,
            r.cached() == Map::<usize, U>::empty(),
            !r.is_updating_spec(),
    {
        let r = Self { predictor, delegate, cache: HashMap::new(), update: None };
        assert(r.cached() =~= Map::<usize, U>::empty());
        r
    }
}

impl<P: PreloadPrediction<usize>, D: PreloadCacheDelegate<usize, U>, U> PreloadCache<P, D, U> {
    fn is_updating(&self) -> (r: bool)
        ensures
            r == self.is_updating_spec(),
    {
        self.update.is_some()
    }

    /// Registers `key` with the prediction and returns what it now predicts.
    fn cur_prediction(&mut self, key: &usize) -> (r: HashSet<usize>)
        requires
            old(self).predictor.can_register(*key),
            P::model_can_predict(P::after_register(old(self).predictor@, *key)),
        ensures
            final(self).predictor@ == P::after_register(old(self).predictor@, *key),
            final(self).predictor.can_predict(),
            r@ == P::spec_predict(final(self).predictor@),
            final(self).delegate == old(self).delegate,
            final(self).cache == old(self).cache,
            final(self).update == old(self).update,
            old(self).wf() ==> final(self).wf(),
    {
        self.predictor.register(key);
        let r = self.predictor.predict();
        assert(self.cached() == old(self).cached());
        assert(self.pending_appending() == old(self).pending_appending());
        r
    }

    /// Brings the update under way, if any, into the cache.
    fn wait_for_update(&mut self)
        requires
            old(self).wf(),
        ensures
            final(self).wf(),
            final(self).cached() == if old(self).is_updating_spec() {
                applied(old(self).cached(), old(self).pending_extra(), old(self).pending_appending())
            } else {
                old(self).cached()
            },
            !final(self).is_updating_spec(),
            final(self).predictor == old(self).predictor,
            final(self).delegate == old(self).delegate,
    {
        let mut update = None;
        std::mem::swap(&mut update, &mut self.update);
        match update {
            None => {},
            Some((extra, appending)) => {
                let ghost old_cached = old(self).cached();
                let ghost base = old_cached.remove_keys(extra@.to_set());
                let mut i: usize = 0;
                while i < extra.len()
                    invariant
                        0 <= i <= extra@.len(),
                        self.update is None,
                        self.predictor == old(self).predictor,
                        self.delegate == old(self).delegate,
                        shared_values(self.cache@) == old_cached.remove_keys(
                            extra@.take(i as int).to_set(),
                        ),
                    decreases extra.len() - i,
                {
                    let ghost before = self.cache@;
                    self.cache.remove(&extra[i]);
                    proof {
                        assert(extra@.take(i + 1) == extra@.take(i as int).push(extra@[i as int]));
                        extra@.take(i as int).lemma_push_to_set_commute(extra@[i as int]);
                        assert(shared_values(self.cache@) =~= shared_values(before).remove(
                            extra@[i as int],
                        ));
                        assert(old_cached.remove_keys(extra@.take(i + 1).to_set())
                            =~= old_cached.remove_keys(extra@.take(i as int).to_set()).remove(
                            extra@[i as int],
                        ));
                    }
                    i = i + 1;
                }
                assert(extra@.take(extra@.len() as int) == extra@);
                let mut j: usize = 0;
                while j < appending.len()
                    invariant
                        0 <= j <= appending@.len(),
                        self.update is None,
                        self.predictor == old(self).predictor,
                        self.delegate == old(self).delegate,
                        shared_values(self.cache@) == base.union_prefer_right(
                            entries_map(appending@.take(j as int)),
                        ),
                    decreases appending.len() - j,
                {
                    let ghost before = self.cache@;
                    let k = appending[j].0;
                    let v = share(&appending[j].1);
                    self.cache.insert(k, v);
                    proof {
                        let t = appending@.take(j + 1);
                        assert(t.drop_last() == appending@.take(j as int));
                        assert(t.last() == appending@[j as int]);
                        assert(shared_values(self.cache@) =~= shared_values(before).insert(k, *v));
                        assert(base.union_prefer_right(entries_map(t)) =~= base.union_prefer_right(
                            entries_map(appending@.take(j as int)),
                        ).insert(k, *v));
                    }
                    j = j + 1;
                }
                assert(appending@.take(appending@.len() as int) == appending@);
                assert(old(self).pending_appending() == entries_map(appending@));
                assert(old(self).pending_extra() == extra@.to_set());
            },
        }
    }
}

impl<P: PreloadPrediction<usize>, D: PreloadCacheDelegate<usize, U>, U> PreloadCache<P, D, U> {
    /// Plans the update that brings the cache in line with `prediction`:
    /// the cached keys outside it leave, the predicted keys that the source
    /// holds join.
    fn plan_update(&self, prediction: &HashSet<usize>) -> (r: (Vec<usize>, Vec<(usize, Arc<U>)>))
        ensures
            r.0@.to_set() == planned_extra(self.cached().dom(), prediction@),
            entries_map(r.1@) == planned_appending(self.delegate, self.cached().dom(), prediction@),
    {
        let ghost dom = self.cached().dom();
        assert(dom =~= self.cache@.dom());
        let keys = map_keys(&self.cache);
        let mut extra: Vec<usize> = Vec::new();
        let mut i: usize = 0;
        while i < keys.len()
            invariant
                0 <= i <= keys@.len(),
                keys@.to_set() == dom,
                extra@.to_set() == keys@.take(i as int).to_set().difference(prediction@),
            decreases keys.len() - i,
        {
            let k = keys[i];
            proof {
                assert(keys@.take(i + 1) == keys@.take(i as int).push(k));
                keys@.take(i as int).lemma_push_to_set_commute(k);
            }
            if !prediction.contains(&k) {
                proof {
                    extra@.lemma_push_to_set_commute(k);
                }
                extra.push(k);
                assert(extra@.to_set() =~= keys@.take(i + 1).to_set().difference(prediction@));
            } else {
                assert(extra@.to_set() =~= keys@.take(i + 1).to_set().difference(prediction@));
            }
            i = i + 1;
        }
        assert(keys@.take(keys@.len() as int) == keys@);
        assert(extra@.to_set() =~= planned_extra(dom, prediction@));
        let predicted = set_elements(prediction);
        let mut appending: Vec<(usize, Arc<U>)> = Vec::new();
        let mut j: usize = 0;
        while j < predicted.len()
            invariant
                0 <= j <= predicted@.len(),
                predicted@.to_set() == prediction@,
                dom == self.cache@.dom(),
                entries_map(appending@) == planned_appending(
                    self.delegate,
                    dom,
                    predicted@.take(j as int).to_set(),
                ),
            decreases predicted.len() - j,
        {
            let k = predicted[j];
            let ghost before = appending@;
            proof {
                assert(predicted@.take(j + 1) == predicted@.take(j as int).push(k));
                predicted@.take(j as int).lemma_push_to_set_commute(k);
            }
            if !self.cache.contains_key(&k) {
                match self.delegate.get(&k) {
                    Some(v) => {
                        let ghost val = v;
                        appending.push((k, Arc::new(v)));
                        proof {
                            assert(appending@.drop_last() == before);
                            assert(entries_map(appending@) =~= planned_appending(
                                self.delegate,
                                dom,
                                predicted@.take(j + 1).to_set(),
                            ));
                        }
                    },
                    None => {
                        assert(entries_map(appending@) =~= planned_appending(
                            self.delegate,
                            dom,
                            predicted@.take(j + 1).to_set(),
                        ));
                    },
                }
            } else {
                assert(entries_map(appending@) =~= planned_appending(
                    self.delegate,
                    dom,
                    predicted@.take(j + 1).to_set(),
                ));
            }
            j = j + 1;
        }
        assert(predicted@.take(predicted@.len() as int) == predicted@);
        (extra, appending)
    }
}

impl<P: PreloadPrediction<usize>, D: PreloadCacheDelegate<usize, U>, U> PreloadCache<P, D, U> {
    /// Whether a lookup of `key` misses the cache while an update is under
    /// way, so that it first waits for the update.
    pub open spec fn waits_for_update(&self, key: usize) -> bool {
        !self.cached().contains_key(key) && self.is_updating_spec()
    }

    /// The cache that a lookup of `key` searches.
    pub open spec fn cache_searched(&self, key: usize) -> Map<usize, U> {
        if self.waits_for_update(key) {
            applied(self.cached(), self.pending_extra(), self.pending_appending())
        } else {
            self.cached()
        }
    }

    /// The cache after a lookup of `key`: a value fetched from the source
    /// joins it.
    pub open spec fn cache_after_get(&self, key: usize) -> Map<usize, U> {
        let c = self.cache_searched(key);
        if !c.contains_key(key) && self.delegate().spec_get(key) is Some {
            c.insert(key, self.delegate().spec_get(key)->0)
        } else {
            c
        }
    }

    /// Whether a lookup of `key` plans a new update: when none is under way
    /// once the cache has been searched.
    pub open spec fn plans_update(&self, key: usize) -> bool {
        !self.is_updating_spec() || self.waits_for_update(key)
    }

    /// The value of the source under `key`: from the cache where it is
    /// there, else from the source, and then kept in the cache. A lookup
    /// that misses the cache while an update is under way first brings the
    /// update in; a lookup that finds no update under way afterwards plans
    /// one that loads the keys predicted next and drops the others.
    pub fn get(&mut self, key: &usize) -> (r: Option<Arc<U>>)
        requires
            old(self).wf(),
            old(self).predictor().can_register(*key),
            P::model_can_predict(P::after_register(old(self).predictor()@, *key)),
        ensures
            final(self).wf(),
            match old(self).delegate().spec_get(*key) {
                Some(v) => r matches Some(a) && *a == v,
                None => r is None,
            },
            final(self).delegate() == old(self).delegate(),
            final(self).predictor()@ == P::after_register(old(self).predictor()@, *key),
            final(self).predictor().can_predict(),
            final(self).cached() == old(self).cache_after_get(*key),
            final(self).is_updating_spec(),
            old(self).plans_update(*key) ==> {
                let prediction = P::spec_predict(final(self).predictor()@);
                &&& final(self).pending_extra() == planned_extra(
                    final(self).cached().dom(),
                    prediction,
                )
                &&& final(self).pending_appending() == planned_appending(
                    final(self).delegate(),
                    final(self).cached().dom(),
                    prediction,
                )
            },
            !old(self).plans_update(*key) ==> {
                &&& final(self).pending_extra() == old(self).pending_extra()
                &&& final(self).pending_appending() == old(self).pending_appending()
            },
    {
        let prediction = self.cur_prediction(key);
        if !self.cache.contains_key(key) && self.is_updating() {
            self.wait_for_update();
        }
        let ghost searched = self.cached();
        let found = match self.cache.get(key) {
            Some(a) => {
                assert(self.cached().contains_key(*key));
                assert(self.cached()[*key] == **a);
                Some(share(a))
            },
            None => None,
        };
        let res = match found {
            Some(a) => Some(a),
            None => match self.delegate.get(key) {
                Some(v) => {
                    let a = Arc::new(v);
                    let ghost before = self.cache@;
                    self.cache.insert(*key, share(&a));
                    assert(shared_values(self.cache@) =~= shared_values(before).insert(*key, *a));
                    Some(a)
                },
                None => None,
            },
        };
        if !self.is_updating() {
            let update = self.plan_update(&prediction);
            self.update = Some(update);
        }
        res
    }
}

} // verus!
