//! Lengths of time as whole seconds and nanoseconds, the way
//! `std::time::Duration` holds them: doubling fails only where the seconds
//! would no longer fit in a `u64`.

use vstd::prelude::*;

verus! {

/// The number of nanoseconds in a second.
pub const NANOS_PER_SEC: u32 = 1_000_000_000;

/// A length of time: `secs` seconds and `nanos` nanoseconds, the latter
/// below one second.
#[derive(Clone, Copy, Debug)]
pub struct Interval {
    secs: u64,
    nanos: u32,
}

/// The longest interval, in nanoseconds.
pub open spec fn max_total() -> int {
    u64::MAX as int * NANOS_PER_SEC as int + (NANOS_PER_SEC as int - 1)
}

impl Interval {
    #[verifier::type_invariant]
    spec fn inv(&self) -> bool {
        self.nanos < NANOS_PER_SEC
    }

    /// The length in nanoseconds.
    pub closed spec fn total(&self) -> int {
        self.secs as int * NANOS_PER_SEC as int + self.nanos as int
    }

    /// No interval is negative.
    pub proof fn lemma_total_nonneg(&self)
        ensures
            self.total() >= 0,
    {
    }

    /// `secs` seconds and `nanos` nanoseconds, whole seconds of `nanos`
    /// carried into the seconds.
    pub fn new(secs: u64, nanos: u32) -> (r: Self)
        requires
            secs + nanos / NANOS_PER_SEC <= u64::MAX,
        ensures
            r.total() == secs * NANOS_PER_SEC + nanos,
    {
        let extra = (nanos / NANOS_PER_SEC) as u64;
        Self { secs: secs + extra, nanos: nanos % NANOS_PER_SEC }
    }

    /// `n` nanoseconds.
    pub fn from_nanos(n: u64) -> (r: Self)
        ensures
            r.total() == n,
    {
        let secs = n / (NANOS_PER_SEC as u64);
        let nanos = (n % (NANOS_PER_SEC as u64)) as u32;
        assert(n == secs * 1_000_000_000 + (n % 1_000_000_000)) by (nonlinear_arith)
            requires
                secs == n / 1_000_000_000,
        ;
        Self { secs, nanos }
    }

    /// The whole seconds.
    pub fn as_secs(&self) -> (r: u64)
        ensures
            r == self.total() / NANOS_PER_SEC as int,
    {
        proof {
            use_type_invariant(self);
        }
        self.secs
    }

    /// The nanoseconds beyond the whole seconds.
    pub fn subsec_nanos(&self) -> (r: u32)
        ensures
            r == self.total() % NANOS_PER_SEC as int,
    {
        proof {
            use_type_invariant(self);
        }
        self.nanos
    }

    /// Twice the interval, or nothing where that is longer than the longest
    /// interval.
    pub fn checked_double(&self) -> (r: Option<Self>)
        ensures
            r is Some <==> 2 * self.total() <= max_total(),
            r matches Some(d) ==> d.total() == 2 * self.total(),
    {
        proof {
            use_type_invariant(self);
        }
        let total_nanos = self.nanos as u64 * 2;
        let extra_secs = total_nanos / (NANOS_PER_SEC as u64);
        let nanos = (total_nanos % (NANOS_PER_SEC as u64)) as u32;
        match self.secs.checked_mul(2) {
            Some(s) => match s.checked_add(extra_secs) {
                Some(secs) => Some(Self { secs, nanos }),
                None => None,
            },
            None => None,
        }
    }

    /// Half the interval, rounded down to the nanosecond.
    pub fn halved(&self) -> (r: Self)
        ensures
            r.total() == self.total() / 2,
    {
        proof {
            use_type_invariant(self);
        }
        let secs = self.secs / 2;
        assert(self.secs == secs * 2 + self.secs % 2) by (nonlinear_arith)
            requires
                secs == self.secs / 2,
        ;
        let carry = self.secs - secs * 2;
        assert(carry <= 1);
        let extra_nanos: u32 = if carry == 1 {
            NANOS_PER_SEC / 2
        } else {
            0
        };
        let nanos = self.nanos / 2 + extra_nanos;
        assert((self.secs as int * 1_000_000_000 + self.nanos) / 2 == secs * 1_000_000_000 + nanos)
            by (nonlinear_arith)
            requires
                self.secs == secs * 2 + carry,
                carry <= 1,
                extra_nanos == carry * 500_000_000,
                nanos == self.nanos / 2 + extra_nanos,
                self.nanos < 1_000_000_000,
        ;
        Self { secs, nanos }
    }

    /// Whether the interval is shorter than `other`.
    pub fn lt(&self, other: &Self) -> (r: bool)
        ensures
            r == (self.total() < other.total()),
    {
        proof {
            use_type_invariant(self);
            use_type_invariant(other);
        }
        self.secs < other.secs || (self.secs == other.secs && self.nanos < other.nanos)
    }

    /// The interval less `other`, or zero where `other` is longer.
    pub fn saturating_sub(&self, other: &Self) -> (r: Self)
        ensures
            r.total() == if self.total() >= other.total() {
                self.total() - other.total()
            } else {
                0
            },
    {
        proof {
            use_type_invariant(self);
            use_type_invariant(other);
        }
        if self.lt(other) {
            Self { secs: 0, nanos: 0 }
        } else if self.nanos >= other.nanos {
            Self { secs: self.secs - other.secs, nanos: self.nanos - other.nanos }
        } else {
            Self { secs: self.secs - other.secs - 1, nanos: self.nanos + NANOS_PER_SEC - other.nanos }
        }
    }
}

} // verus!
