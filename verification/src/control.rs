//! Keyboard control of a running board: the keys slow the evolution down,
//! speed it up, pause it and stop it.
//!
//! The callbacks here hold the state and decide; the caller reads the keys,
//! reads the clock and waits.

use crate::interval::{max_total, Interval};
use vstd::prelude::*;

verus! {

/// The key that halves the delay between generations.
pub const KEY_FASTER: char = 'k';

/// The key that doubles the delay between generations.
pub const KEY_SLOWER: char = 'j';

/// The key that pauses a running board and resumes a paused one.
pub const KEY_PAUSE: char = ' ';

/// The key that stops the program.
pub const KEY_QUIT: char = 'q';

/// The delay, in nanoseconds, after key `ch` is typed: halved by the
/// faster key, doubled by the slower one, unchanged by any other.
pub open spec fn delay_after_key(nanos: int, ch: char) -> int {
    if ch == KEY_FASTER {
        nanos / 2
    } else if ch == KEY_SLOWER {
        nanos * 2
    } else {
        nanos
    }
}

/// Waits between generations so that they are at least a given delay
/// apart; times are measured from a fixed start.
pub struct Delay {
    last_execution: Interval,
    duration: Interval,
}

impl Delay {
    /// The time of the last generation.
    pub closed spec fn last_execution_spec(&self) -> Interval {
        self.last_execution
    }

    /// The delay between generations.
    pub closed spec fn duration_spec(&self) -> Interval {
        self.duration
    }

    /// A delay of `duration`, counted from `now`.
    pub fn new(duration: Interval, now: Interval) -> (r: Self)
        ensures
            r.duration_spec() == duration,
            r.last_execution_spec() == now,
    {
        Self { last_execution: now, duration }
    }

    /// The delay between generations.
    pub fn duration(&self) -> (r: Interval)
        ensures
            r == self.duration_spec(),
    {
        self.duration
    }

    /// Applies key `ch`; doubling must keep the delay within the longest
    /// interval.
    pub fn check_user_input(&mut self, ch: char)
        requires
            ch == KEY_SLOWER ==> old(self).duration_spec().total() * 2 <= max_total(),
        ensures
            final(self).duration_spec().total() == delay_after_key(
                old(self).duration_spec().total(),
                ch,
            ),
            final(self).last_execution_spec() == old(self).last_execution_spec(),
    {
        if ch == KEY_FASTER {
            self.duration = self.duration.halved();
        } else if ch == KEY_SLOWER {
            match self.duration.checked_double() {
                Some(d) => {
                    self.duration = d;
                },
                None => {},
            }
        }
    }

    /// Whether the next generation must still wait at time `now`.
    pub fn should_wait(&self, now: Interval) -> (r: bool)
        ensures
            r == (now.total() < self.last_execution_spec().total() + self.duration_spec().total()),
    {
        proof {
            self.duration.lemma_total_nonneg();
        }
        if now.lt(&self.last_execution) {
            true
        } else {
            let since = now.saturating_sub(&self.last_execution);
            since.lt(&self.duration)
        }
    }

    /// Records that a generation ran at time `now`.
    pub fn executed(&mut self, now: Interval)
        ensures
            final(self).last_execution_spec() == now,
            final(self).duration_spec() == old(self).duration_spec(),
    {
        self.last_execution = now;
    }
}

/// Holds the board while it is paused.
pub struct Pause {
    is_paused: bool,
}

impl Pause {
    /// Whether the board is paused.
    pub closed spec fn paused_spec(&self) -> bool {
        self.is_paused
    }

    /// A pause control, paused or running as `is_paused` says.
    pub fn new(is_paused: bool) -> (r: Self)
        ensures
            r.paused_spec() == is_paused,
    {
        Self { is_paused }
    }

    /// Whether the board is paused.
    pub fn is_paused(&self) -> (r: bool)
        ensures
            r == self.paused_spec(),
    {
        self.is_paused
    }

    /// Applies key `ch`: the pause key toggles the pause, any other key does
    /// nothing.
    pub fn execute_user_input(&mut self, ch: char)
        ensures
            final(self).paused_spec() == if ch == KEY_PAUSE {
                !old(self).paused_spec()
            } else {
                old(self).paused_spec()
            },
    {
        if ch == KEY_PAUSE {
            self.is_paused = !self.is_paused;
        }
    }
}

/// Whether key `ch` stops the program.
pub fn should_terminate(ch: char) -> (r: bool)
    ensures
        r == (ch == KEY_QUIT),
{
    ch == KEY_QUIT
}

/// The faster key undoes the slower key, and the slower key undoes the
/// faster one on an even delay; the pause key undoes itself.
pub proof fn lemma_keys_undo(nanos: int, is_paused: bool)
    ensures
        delay_after_key(delay_after_key(nanos, KEY_SLOWER), KEY_FASTER) == nanos,
        nanos % 2 == 0 ==> delay_after_key(delay_after_key(nanos, KEY_FASTER), KEY_SLOWER)
            == nanos,
        !(!is_paused) == is_paused,
{
}

} // verus!
