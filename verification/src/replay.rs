//! Replaying a recorded run: the states of the generation on show, moved
//! back and forth by the keyboard and forward by the clock.
//!
//! The replayer holds the state and decides; the caller reads the keys and
//! the clock.

use crate::callback::StatesCallback;
use crate::control::{delay_after_key, KEY_FASTER, KEY_PAUSE, KEY_QUIT, KEY_SLOWER};
use crate::interval::{max_total, Interval};
use crate::index::CellIndex;
use crate::persistence::batch_deserializer::{Batch, BatchDeserializerLocal};
use crate::persistence::preload_cache::PreloadCacheDelegate;
use crate::state::CellState;
use crate::strategy::entry_views;
use vstd::prelude::*;

verus! {

/// The key that shows the previous generation.
pub const KEY_BACK: char = 'h';

/// The key that shows the next generation.
pub const KEY_FORWARD: char = 'l';

/// The delay between generations when a replay starts, in nanoseconds: one
/// second.
pub open spec fn initial_delay() -> int {
    1_000_000_000
}

/// Copies the entries of `v`.
fn copy_entries<CI: CellIndex, T: CellState>(v: &Vec<(CI, T)>) -> (r: Vec<(CI, T)>)
    ensures
        entry_views(r@) == entry_views(v@),
{
    let mut r: Vec<(CI, T)> = Vec::new();
    let n = v.len();
    for i in 0..n
        invariant
            n == v@.len(),
            entry_views(r@) == entry_views(v@).subrange(0, i as int),
    {
        let k = v[i].0.copy_index();
        let ghost prev = r@;
        r.push((k, v[i].1));
        proof {
            assert(r@ == prev.push((k, v@[i as int].1)));
            assert(entry_views(r@) =~= entry_views(prev).push(entry_views(v@)[i as int]));
            assert(entry_views(v@).subrange(0, i + 1) =~= entry_views(v@).subrange(0, i as int).push(
                entry_views(v@)[i as int],
            ));
        }
    }
    assert(entry_views(v@).subrange(0, n as int) =~= entry_views(v@));
    r
}

/// The generation on show in a replay: its number, its cells, and the
/// header of the recording.
pub struct IndexedStates<T, CI, U, D> {
    idx: usize,
    deserializer: BatchDeserializerLocal<U, Vec<(CI, T)>, D>,
    states: StatesCallback<T, CI>,
    header: U,
}

impl<
    T: CellState,
    CI: CellIndex,
    U: Copy,
    D: PreloadCacheDelegate<usize, Batch<U, Vec<(CI, T)>>>,
> IndexedStates<T, CI, U, D> {
    /// The number of the generation on show.
    pub closed spec fn idx_spec(&self) -> usize {
        self.idx
    }

    /// The header of the recording.
    pub closed spec fn header_spec(&self) -> U {
        self.header
    }

    /// The cells on show whose state is not trivial.
    pub closed spec fn lookup_spec(&self) -> Seq<(CI::V, T)> {
        self.states.lookup_spec()
    }

    /// The number of times the cells on show were replaced.
    pub closed spec fn iteration_spec(&self) -> usize {
        self.states.iteration_spec()
    }

    /// The recording.
    pub closed spec fn source(&self) -> BatchDeserializerLocal<U, Vec<(CI, T)>, D> {
        self.deserializer
    }

    /// The recording reads back in order, and each of its batches is
    /// complete and numbered.
    pub closed spec fn wf(&self) -> bool {
        &&& self.deserializer.wf()
        &&& self.deserializer.batches_complete()
        &&& self.deserializer.batches_numbered()
    }

    /// The cells of generation `idx` as the recording holds them, if it
    /// does.
    pub open spec fn recorded(
        source: BatchDeserializerLocal<U, Vec<(CI, T)>, D>,
        idx: usize,
    ) -> Option<Seq<(CI::V, T)>> {
        match source.read_item(idx) {
            Some((_, item)) => Some(entry_views(item.1@)),
            None => None,
        }
    }

    /// Whether showing generation `idx` succeeds: it is on show already or
    /// the recording holds it.
    pub open spec fn can_show(&self, idx: usize) -> bool {
        idx == self.idx_spec() || Self::recorded(self.source(), idx) is Some
    }

    /// Whether `next` is `self` after showing generation `idx`: the same
    /// recording and header, and generation `idx` on show with its cells
    /// where that succeeds, nothing changed on show where it does not.
    pub open spec fn shown(&self, next: Self, idx: usize) -> bool {
        &&& next.wf()
        &&& next.header_spec() == self.header_spec()
        &&& next.source().delegate() == self.source().delegate()
        &&& next.source().ranges() == self.source().ranges()
        &&& if idx == self.idx_spec() {
            &&& next.idx_spec() == self.idx_spec()
            &&& next.lookup_spec() == self.lookup_spec()
            &&& next.iteration_spec() == self.iteration_spec()
        } else {
            match Self::recorded(self.source(), idx) {
                Some(cells) => {
                    &&& next.idx_spec() == idx
                    &&& next.lookup_spec() == cells
                    &&& next.iteration_spec() == self.iteration_spec() + 1
                },
                None => {
                    &&& next.idx_spec() == self.idx_spec()
                    &&& next.lookup_spec() == self.lookup_spec()
                    &&& next.iteration_spec() == self.iteration_spec()
                },
            }
        }
    }

    /// Whether the recording holds a first generation with a header.
    pub open spec fn has_start(deserializer: BatchDeserializerLocal<U, Vec<(CI, T)>, D>) -> bool {
        match deserializer.read_item(0) {
            Some((header, _)) => (*header) is Some,
            None => false,
        }
    }

    /// Shows the first generation of `deserializer`, which must hold one
    /// with a header.
    pub fn new(trivial_state: T, deserializer: BatchDeserializerLocal<U, Vec<(CI, T)>, D>) -> (r:
        Self)
        requires
            deserializer.wf(),
            deserializer.batches_complete(),
            deserializer.batches_numbered(),
            Self::has_start(deserializer),
        ensures
            r.wf(),
            r.idx_spec() == 0,
            r.iteration_spec() == 1,
            r.source().delegate() == deserializer.delegate(),
            r.source().ranges() == deserializer.ranges(),
            match deserializer.read_item(0) {
                Some((header, item)) => Some(r.header_spec()) == *header && r.lookup_spec()
                    == entry_views(item.1@),
                None => false,
            },
    {
        let mut deserializer = deserializer;
        proof {
            deserializer.lemma_complete_batches_hold_items(0);
        }
        let initial = deserializer.get(0);
        match initial {
            Some((header, item)) => {
                let h = match &*header {
                    Some(h) => *h,
                    None => vstd::pervasive::unreached(),
                };
                let initial_states = copy_entries(&item.1);
                let mut states = StatesCallback::new(trivial_state);
                states.set_non_trivial_lookup(initial_states);
                Self { idx: 0, deserializer, states, header: h }
            },
            None => vstd::pervasive::unreached(),
        }
    }

    /// The header of the recording.
    pub fn get_header(&self) -> (r: U)
        ensures
            r == self.header_spec(),
    {
        self.header
    }

    /// The number of the generation on show.
    pub fn get_idx(&self) -> (r: usize)
        ensures
            r == self.idx_spec(),
    {
        self.idx
    }

    /// The number of times the cells on show were replaced.
    pub fn iteration(&self) -> (r: usize)
        ensures
            r == self.iteration_spec(),
    {
        self.states.iteration()
    }

    /// The cells on show.
    pub fn states(&self) -> (r: &StatesCallback<T, CI>)
        ensures
            r.lookup_spec() == self.lookup_spec(),
            r.iteration_spec() == self.iteration_spec(),
    {
        &self.states
    }

    /// Shows generation `idx`; false, with nothing changed, where the
    /// recording does not hold it.
    pub fn set_idx(&mut self, idx: usize) -> (r: bool)
        requires
            old(self).wf(),
            old(self).iteration_spec() < usize::MAX,
        ensures
            old(self).shown(*final(self), idx),
            r == old(self).can_show(idx),
    {
        if self.idx == idx {
            return true;
        }
        proof {
            self.deserializer.lemma_complete_batches_hold_items(idx);
        }
        match self.deserializer.get(idx) {
            Some((_, item)) => {
                assert(item.0 == idx);
                let new_states = copy_entries(&item.1);
                self.states.set_non_trivial_lookup(new_states);
                self.idx = idx;
                true
            },
            None => false,
        }
    }
}

/// A replay: the generation on show, whether it is paused, and the delay
/// between generations.
pub struct ReplayerLocal<T, CI, U, D> {
    states: IndexedStates<T, CI, U, D>,
    delay: Interval,
    is_paused: bool,
}

impl<
    T: CellState,
    CI: CellIndex,
    U: Copy,
    D: PreloadCacheDelegate<usize, Batch<U, Vec<(CI, T)>>>,
> ReplayerLocal<T, CI, U, D> {
    /// The generation on show.
    pub closed spec fn states_spec(&self) -> IndexedStates<T, CI, U, D> {
        self.states
    }

    /// The delay between generations.
    pub closed spec fn delay_spec(&self) -> Interval {
        self.delay
    }

    /// Whether the replay is paused.
    pub closed spec fn paused_spec(&self) -> bool {
        self.is_paused
    }

    /// Whether another generation can be shown: the counters stay in range.
    pub open spec fn can_step(&self) -> bool {
        &&& self.states_spec().iteration_spec() < usize::MAX
        &&& self.states_spec().idx_spec() < usize::MAX
    }

    /// A paused replay of `deserializer` that shows its first generation,
    /// with a delay of one second; the recording must hold a first
    /// generation with a header.
    pub fn new(trivial_state: T, deserializer: BatchDeserializerLocal<U, Vec<(CI, T)>, D>) -> (r:
        Self)
        requires
            deserializer.wf(),
            deserializer.batches_complete(),
            deserializer.batches_numbered(),
            IndexedStates::<T, CI, U, D>::has_start(deserializer),
        ensures
            r.states_spec().wf(),
            r.states_spec().idx_spec() == 0,
            r.states_spec().source().delegate() == deserializer.delegate(),
            r.states_spec().source().ranges() == deserializer.ranges(),
            match deserializer.read_item(0) {
                Some((header, item)) => Some(r.states_spec().header_spec()) == *header
                    && r.states_spec().lookup_spec() == entry_views(item.1@),
                None => false,
            },
            r.delay_spec().total() == initial_delay(),
            r.paused_spec(),
    {
        let states = IndexedStates::new(trivial_state, deserializer);
        Self { states, delay: Interval::new(1, 0), is_paused: true }
    }

    /// Whether another generation can be shown.
    pub fn ready_to_step(&self) -> (r: bool)
        ensures
            r == self.can_step(),
    {
        self.states.iteration() < usize::MAX && self.states.get_idx() < usize::MAX
    }

    /// The header of the recording.
    pub fn get_header(&self) -> (r: U)
        ensures
            r == self.states_spec().header_spec(),
    {
        self.states.get_header()
    }

    /// The generation on show, its cells and the recording.
    pub fn get_states(&self) -> (r: &IndexedStates<T, CI, U, D>)
        ensures
            *r == self.states_spec(),
    {
        &self.states
    }

    /// The number of the generation on show.
    pub fn get_idx(&self) -> (r: usize)
        ensures
            r == self.states_spec().idx_spec(),
    {
        self.states.get_idx()
    }

    /// The delay between generations.
    pub fn get_delay(&self) -> (r: Interval)
        ensures
            r == self.delay_spec(),
    {
        self.delay
    }

    /// Sets the delay between generations.
    pub fn set_delay(&mut self, delay: Interval)
        ensures
            final(self).delay_spec() == delay,
            final(self).states_spec() == old(self).states_spec(),
            final(self).paused_spec() == old(self).paused_spec(),
    {
        self.delay = delay;
    }

    /// Whether the replay is paused.
    pub fn is_paused(&self) -> (r: bool)
        ensures
            r == self.paused_spec(),
    {
        self.is_paused
    }

    /// Resumes the replay.
    pub fn play(&mut self)
        ensures
            !final(self).paused_spec(),
            final(self).states_spec() == old(self).states_spec(),
            final(self).delay_spec() == old(self).delay_spec(),
    {
        self.is_paused = false;
    }

    /// Pauses the replay.
    pub fn pause(&mut self)
        ensures
            final(self).paused_spec(),
            final(self).states_spec() == old(self).states_spec(),
            final(self).delay_spec() == old(self).delay_spec(),
    {
        self.is_paused = true;
    }

    /// Shows generation `idx`, and pauses where that fails.
    pub fn set_idx(&mut self, idx: usize)
        requires
            old(self).states_spec().wf(),
            old(self).can_step(),
        ensures
            old(self).states_spec().shown(final(self).states_spec(), idx),
            final(self).paused_spec() == (old(self).paused_spec() || !old(
                self,
            ).states_spec().can_show(idx)),
            final(self).delay_spec() == old(self).delay_spec(),
    {
        let succeed = self.states.set_idx(idx);
        if !succeed {
            self.pause();
        }
    }

    /// Shows the next generation, and pauses where that fails.
    pub fn forward(&mut self)
        requires
            old(self).states_spec().wf(),
            old(self).can_step(),
        ensures
            old(self).states_spec().shown(
                final(self).states_spec(),
                (old(self).states_spec().idx_spec() + 1) as usize,
            ),
            final(self).paused_spec() == (old(self).paused_spec() || !old(
                self,
            ).states_spec().can_show((old(self).states_spec().idx_spec() + 1) as usize)),
            final(self).delay_spec() == old(self).delay_spec(),
    {
        let i = self.get_idx();
        self.set_idx(i + 1);
    }

    /// Shows the previous generation, if there is one, and pauses where
    /// that fails.
    pub fn backward(&mut self)
        requires
            old(self).states_spec().wf(),
            old(self).can_step(),
        ensures
            old(self).states_spec().idx_spec() == 0 ==> final(self).states_spec() == old(
                self,
            ).states_spec() && final(self).paused_spec() == old(self).paused_spec(),
            old(self).states_spec().idx_spec() > 0 ==> old(self).states_spec().shown(
                final(self).states_spec(),
                (old(self).states_spec().idx_spec() - 1) as usize,
            ) && final(self).paused_spec() == (old(self).paused_spec() || !old(
                self,
            ).states_spec().can_show((old(self).states_spec().idx_spec() - 1) as usize)),
            final(self).delay_spec() == old(self).delay_spec(),
    {
        let cur_idx = self.get_idx();
        if cur_idx > 0 {
            self.set_idx(cur_idx - 1);
        }
    }

    /// The generation that key `ch` asks for, if it asks for one: the
    /// back key asks for the previous one (the next one from the first),
    /// the forward key for the next one.
    pub open spec fn key_target(ch: char, idx: usize) -> Option<usize> {
        if ch == KEY_BACK && idx > 0 {
            Some((idx - 1) as usize)
        } else if ch == KEY_BACK || ch == KEY_FORWARD {
            Some((idx + 1) as usize)
        } else {
            None
        }
    }

    /// Applies key `ch`: the pause key toggles the pause; the back and
    /// forward keys pause and move one generation; the slower and faster
    /// keys double and halve the delay. Returns whether `ch` is the key
    /// that stops the program.
    pub fn on_key(&mut self, ch: char) -> (quit: bool)
        requires
            old(self).states_spec().wf(),
            old(self).can_step(),
            ch == KEY_SLOWER ==> old(self).delay_spec().total() * 2 <= max_total(),
        ensures
            final(self).states_spec().wf(),
            quit == (ch == KEY_QUIT),
            final(self).paused_spec() == if ch == KEY_PAUSE {
                !old(self).paused_spec()
            } else if ch == KEY_BACK || ch == KEY_FORWARD {
                true
            } else {
                old(self).paused_spec()
            },
            final(self).delay_spec().total() == delay_after_key(old(self).delay_spec().total(), ch),
            ch != KEY_SLOWER && ch != KEY_FASTER ==> final(self).delay_spec() == old(
                self,
            ).delay_spec(),
            match Self::key_target(ch, old(self).states_spec().idx_spec()) {
                Some(target) => old(self).states_spec().shown(final(self).states_spec(), target),
                None => final(self).states_spec() == old(self).states_spec(),
            },
    {
        if ch == KEY_PAUSE {
            self.is_paused = !self.is_paused;
        } else if ch == KEY_BACK || ch == KEY_FORWARD {
            self.is_paused = true;
            let cur = self.states.get_idx();
            let new_idx = if ch == KEY_BACK && cur > 0 {
                cur - 1
            } else {
                cur + 1
            };
            self.states.set_idx(new_idx);
        } else if ch == KEY_SLOWER {
            match self.delay.checked_double() {
                Some(d) => {
                    self.delay = d;
                },
                None => {},
            }
        } else if ch == KEY_FASTER {
            self.delay = self.delay.halved();
        }
        ch == KEY_QUIT
    }

    /// Called by the clock `elapsed` after the last generation
    /// was shown: a running replay whose delay has passed shows the next
    /// generation. Returns whether it did, so that the clock starts again.
    pub fn on_tick(&mut self, elapsed: Interval) -> (advanced: bool)
        requires
            old(self).states_spec().wf(),
            old(self).can_step(),
        ensures
            final(self).states_spec().wf(),
            advanced == (!old(self).paused_spec() && elapsed.total() >= old(
                self,
            ).delay_spec().total()),
            final(self).paused_spec() == old(self).paused_spec(),
            final(self).delay_spec() == old(self).delay_spec(),
            !advanced ==> final(self).states_spec() == old(self).states_spec(),
            advanced ==> old(self).states_spec().shown(
                final(self).states_spec(),
                (old(self).states_spec().idx_spec() + 1) as usize,
            ),
    {
        if !self.is_paused && !elapsed.lt(&self.delay) {
            let cur = self.states.get_idx();
            self.states.set_idx(cur + 1);
            true
        } else {
            false
        }
    }
}

/// The back key undoes the forward key: from any generation but the last
/// possible one, going forward and then back asks for the generation one
/// started from.
pub proof fn lemma_back_undoes_forward<
    T: CellState,
    CI: CellIndex,
    U: Copy,
    D: PreloadCacheDelegate<usize, Batch<U, Vec<(CI, T)>>>,
>(idx: usize)
    requires
        idx < usize::MAX,
    ensures
        ReplayerLocal::<T, CI, U, D>::key_target(KEY_FORWARD, idx) == Some((idx + 1) as usize),
        ReplayerLocal::<T, CI, U, D>::key_target(KEY_BACK, (idx + 1) as usize) == Some(idx),
{
}

} // verus!
