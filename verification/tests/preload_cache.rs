use gol_core::persistence::adjacent_index_prediction::{AdjacentIndexPrediction, PreloadPrediction};
use gol_core::persistence::preload_cache::{PreloadCache, PreloadCacheDelegate};
use std::cell::Cell;

struct VecWrapper<T> {
    vec: Vec<T>,
}

impl PreloadCacheDelegate<usize, usize> for VecWrapper<usize> {
    fn spec_get(&self, key: usize) -> Option<usize> {
        self.vec.get(key).cloned()
    }

    fn get(&self, key: &usize) -> Option<usize> {
        self.vec.get(*key).cloned()
    }
}

/// A source that counts how often it is asked.
struct CountingSource {
    vec: Vec<usize>,
    calls: Cell<usize>,
}

impl PreloadCacheDelegate<usize, usize> for CountingSource {
    fn spec_get(&self, key: usize) -> Option<usize> {
        self.vec.get(key).cloned()
    }

    fn get(&self, key: &usize) -> Option<usize> {
        self.calls.set(self.calls.get() + 1);
        self.vec.get(*key).cloned()
    }
}

#[test]
fn preload_cache_test_1() {
    let predictor = AdjacentIndexPrediction::new()
        .with_history_size(10)
        .with_forward_size(3)
        .with_backward_size(1);
    let delegate = VecWrapper {
        vec: (0..100).collect(),
    };
    let mut preload_cache = PreloadCache::new(predictor, delegate);
    for i in 0usize..100 {
        assert_eq!(*preload_cache.get(&i).unwrap(), i);
    }
    for i in 100usize..150 {
        assert!(preload_cache.get(&i).is_none());
    }
    for i in (0usize..100).rev() {
        assert_eq!(*preload_cache.get(&i).unwrap(), i);
    }
}

fn cache_calls(cache: &PreloadCache<AdjacentIndexPrediction, CountingSource, usize>) -> usize {
    cache.delegate_ref().calls.get()
}

#[test]
fn preload_cache_serves_loaded_keys_from_cache() {
    let predictor = AdjacentIndexPrediction::new()
        .with_history_size(1)
        .with_forward_size(2)
        .with_backward_size(0);
    let source = CountingSource {
        vec: (0..10).map(|v| v * 10).collect(),
        calls: Cell::new(0),
    };
    let mut cache = PreloadCache::new(predictor, source);
    // A miss goes to the source, then the update for keys 0..=2 is planned:
    // keys 1 and 2 are loaded ahead.
    assert_eq!(*cache.get(&0).unwrap(), 0);
    assert_eq!(cache_calls(&cache), 3);
    // Key 1 misses while the update is under way: the update comes in and
    // serves it; the next update asks the source for key 3 only.
    assert_eq!(*cache.get(&1).unwrap(), 10);
    assert_eq!(cache_calls(&cache), 4);
    // Key 0 is still cached and an update is under way: nothing is asked.
    assert_eq!(*cache.get(&0).unwrap(), 0);
    assert_eq!(cache_calls(&cache), 4);
    // A far key is fetched, and keys 10 and 11 are asked for ahead.
    assert_eq!(*cache.get(&9).unwrap(), 90);
    assert_eq!(cache_calls(&cache), 7);
    assert!(cache.get(&10).is_none());
    assert_eq!(cache_calls(&cache), 11);
}

#[test]
fn adjacent_prediction_window() {
    let mut p = AdjacentIndexPrediction::new()
        .with_history_size(3)
        .with_forward_size(2)
        .with_backward_size(1);
    p.register(&10);
    p.register(&20);
    let mut got: Vec<usize> = p.predict().into_iter().collect();
    got.sort();
    assert_eq!(got, vec![14, 15, 16, 17]);
    p.register(&30);
    p.register(&40);
    // The history keeps the last three: 20, 30, 40, average 30.
    let mut got: Vec<usize> = p.predict().into_iter().collect();
    got.sort();
    assert_eq!(got, vec![29, 30, 31, 32]);
}

#[test]
fn adjacent_prediction_cut_at_zero() {
    let mut p = AdjacentIndexPrediction::new()
        .with_history_size(10)
        .with_forward_size(1)
        .with_backward_size(5);
    p.register(&1);
    let mut got: Vec<usize> = p.predict().into_iter().collect();
    got.sort();
    assert_eq!(got, vec![0, 1, 2]);
}
