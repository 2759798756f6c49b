use gol_core::index::GridPoint2D;
use gol_core::interval::Interval;
use gol_core::persistence::batch_deserializer::{Batch, BatchDeserializerLocal};
use gol_core::persistence::preload_cache::PreloadCacheDelegate;
use gol_core::replay::{IndexedStates, ReplayerLocal};
use std::sync::Arc;

type Cells = Vec<(GridPoint2D<i32>, u8)>;

struct MemoryRun {
    batches: Vec<(Option<u32>, Vec<(usize, Cells)>)>,
}

impl PreloadCacheDelegate<usize, Batch<u32, Cells>> for MemoryRun {
    fn spec_get(&self, key: usize) -> Option<Batch<u32, Cells>> {
        self.get(&key)
    }

    fn get(&self, key: &usize) -> Option<Batch<u32, Cells>> {
        self.batches.get(*key).map(|(h, items)| {
            (
                Arc::new(*h),
                items.iter().map(|e| Arc::new(e.clone())).collect::<Vec<_>>(),
            )
        })
    }
}

fn nanos(i: Interval) -> u128 {
    i.as_secs() as u128 * 1_000_000_000 + i.subsec_nanos() as u128
}

fn cells(gen: u8) -> Cells {
    vec![(GridPoint2D { x: gen as i32, y: 0 }, gen + 1)]
}

fn run(header: Option<u32>) -> BatchDeserializerLocal<u32, Cells, MemoryRun> {
    let source = MemoryRun {
        batches: vec![
            (header, vec![(0, cells(0)), (1, cells(1))]),
            (header, vec![(2, cells(2)), (3, cells(3))]),
        ],
    };
    BatchDeserializerLocal::new(source, vec![0, 2, 4])
}

#[test]
fn indexed_states_moves_between_generations() {
    let mut s = IndexedStates::new(0u8, run(Some(42)));
    assert_eq!(s.get_header(), 42);
    assert_eq!(s.get_idx(), 0);
    assert_eq!(s.states().non_trivial_lookup(), &cells(0));
    assert!(s.set_idx(2));
    assert_eq!(s.get_idx(), 2);
    assert_eq!(s.states().non_trivial_lookup(), &cells(2));
    assert_eq!(s.iteration(), 2);
    assert!(s.set_idx(2));
    assert_eq!(s.iteration(), 2);
    assert!(!s.set_idx(4));
    assert_eq!(s.get_idx(), 2);
    assert_eq!(s.states().non_trivial_lookup(), &cells(2));
}

#[test]
fn replayer_keys_and_clock() {
    let mut r = ReplayerLocal::new(0u8, run(Some(7)));
    assert!(r.is_paused());
    assert_eq!(nanos(r.get_delay()), 1_000_000_000);
    assert_eq!(r.get_header(), 7);
    // Paused: the clock does not move the replay.
    assert!(!r.on_tick(Interval::from_nanos(5_000_000_000)));
    assert_eq!(r.get_idx(), 0);
    // The pause key resumes; the clock then moves one generation once the
    // delay has passed.
    assert!(!r.on_key(' '));
    assert!(!r.is_paused());
    assert!(!r.on_tick(Interval::from_nanos(10)));
    assert!(r.on_tick(Interval::from_nanos(1_000_000_000)));
    assert_eq!(r.get_idx(), 1);
    // Faster halves the delay, slower doubles it.
    r.on_key('k');
    assert_eq!(nanos(r.get_delay()), 500_000_000);
    r.on_key('j');
    r.on_key('j');
    assert_eq!(nanos(r.get_delay()), 2_000_000_000);
    // Forward and back pause and move.
    r.on_key('l');
    assert!(r.is_paused());
    assert_eq!(r.get_idx(), 2);
    r.on_key('h');
    assert_eq!(r.get_idx(), 1);
    r.on_key('h');
    r.on_key('h');
    // From the first generation the back key goes forward.
    assert_eq!(r.get_idx(), 1);
    assert!(r.on_key('q'));
}

#[test]
fn replayer_pauses_at_the_end() {
    let mut r = ReplayerLocal::new(0u8, run(Some(7)));
    r.set_idx(2);
    assert_eq!(r.get_idx(), 2);
    assert!(r.is_paused());
    r.play();
    // Item 3 lies inside the last range, which the lookup never reports:
    // the replay stays where it is and pauses.
    r.forward();
    assert_eq!(r.get_idx(), 2);
    assert!(r.is_paused());
    r.backward();
    assert_eq!(r.get_idx(), 1);
    r.set_delay(Interval::from_nanos(10));
    assert_eq!(nanos(r.get_delay()), 10);
    r.pause();
    assert!(r.is_paused());
}

#[test]
fn replayer_doubles_delays_past_u64_nanoseconds() {
    let mut r = ReplayerLocal::new(0u8, run(Some(7)));
    r.set_delay(Interval::new(u64::MAX / 2, 600_000_000));
    r.on_key('j');
    let d = r.get_delay();
    assert_eq!((d.as_secs(), d.subsec_nanos()), (u64::MAX, 200_000_000));
    r.on_key('k');
    let d = r.get_delay();
    assert_eq!((d.as_secs(), d.subsec_nanos()), (u64::MAX / 2, 600_000_000));
}
