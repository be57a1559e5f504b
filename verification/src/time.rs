//! Spans of time and moments on one clock, in nanoseconds.
use vstd::prelude::*;

verus! {

/// Nanoseconds in a second.
pub const SECOND: u128 = 1_000_000_000;

/// The first span too long to count: two to the sixty-fourth seconds.
pub const SPAN_END: u128 = 18_446_744_073_709_551_616_000_000_000;

/// A span of time: whole seconds that fit in a `u64`, and nanoseconds.
#[derive(Clone, Copy, PartialEq, Eq, Debug, Default)]
pub struct Duration {
    nanos: u128,
}

impl View for Duration {
    type V = nat;

    /// The span in nanoseconds.
    closed spec fn view(&self) -> nat {
        self.nanos as nat
    }
}

impl Duration {
    #[verifier::type_invariant]
    spec fn counted(self) -> bool {
        self.nanos < SPAN_END
    }

    /// No time at all.
    pub fn zero() -> (r: Duration)
        ensures
            r@ == 0,
    {
        Duration { nanos: 0 }
    }

    /// `n` nanoseconds.
    pub fn from_nanos(n: u64) -> (r: Duration)
        ensures
            r@ == n,
    {
        Duration { nanos: n as u128 }
    }

    /// `n` microseconds.
    pub fn from_micros(n: u64) -> (r: Duration)
        ensures
            r@ == n * 1_000,
    {
        Duration { nanos: n as u128 * 1_000 }
    }

    /// `n` milliseconds.
    pub fn from_millis(n: u64) -> (r: Duration)
        ensures
            r@ == n * 1_000_000,
    {
        Duration { nanos: n as u128 * 1_000_000 }
    }

    /// `n` seconds.
    pub fn from_secs(n: u64) -> (r: Duration)
        ensures
            r@ == n * SECOND,
    {
        Duration { nanos: n as u128 * SECOND }
    }

    /// `n` nanoseconds, however many can be counted.
    pub fn of_nanos(n: u128) -> (r: Duration)
        requires
            n < SPAN_END,
        ensures
            r@ == n,
    {
        Duration { nanos: n }
    }

    /// The span in nanoseconds.
    pub fn as_nanos(&self) -> (r: u128)
        ensures
            r == self@,
            r < SPAN_END,
    {
        proof {
            use_type_invariant(self);
        }
        self.nanos
    }

    /// The whole seconds.
    pub fn as_secs(&self) -> (r: u64)
        ensures
            r == self@ / SECOND as nat,
    {
        proof {
            use_type_invariant(self);
        }
        (self.nanos / SECOND) as u64
    }

    /// The nanoseconds past the whole seconds.
    pub fn subsec_nanos(&self) -> (r: u32)
        ensures
            r == self@ % SECOND as nat,
            r < 1_000_000_000,
    {
        (self.nanos % SECOND) as u32
    }

    /// Whether this span is shorter than `other`.
    pub fn shorter_than(&self, other: Duration) -> (r: bool)
        ensures
            r == (self@ < other@),
    {
        self.nanos < other.nanos
    }
}

/// A moment, counted from the start of the clock.
#[derive(Clone, Copy, PartialEq, Eq, Debug)]
pub struct Instant {
    nanos: u128,
}

impl View for Instant {
    type V = nat;

    /// Nanoseconds since the start of the clock.
    closed spec fn view(&self) -> nat {
        self.nanos as nat
    }
}

impl Instant {
    #[verifier::type_invariant]
    spec fn counted(self) -> bool {
        self.nanos < SPAN_END
    }

    /// The moment `since` after the start of the clock.
    pub fn at(since: Duration) -> (r: Instant)
        ensures
            r@ == since@,
    {
        Instant { nanos: since.as_nanos() }
    }

    /// How long after `earlier` this moment is; nothing where it is before.
    pub fn saturating_duration_since(&self, earlier: Instant) -> (r: Duration)
        ensures
            r@ == gap(earlier@, self@),
    {
        proof {
            use_type_invariant(self);
        }
        if self.nanos >= earlier.nanos {
            Duration { nanos: self.nanos - earlier.nanos }
        } else {
            Duration { nanos: 0 }
        }
    }

    /// The moment `span` later; the clock's last moment where there is none.
    pub fn after(&self, span: Duration) -> (r: Instant)
        ensures
            r@ == if self@ + span@ < SPAN_END {
                self@ + span@
            } else {
                (SPAN_END - 1) as nat
            },
    {
        proof {
            use_type_invariant(self);
        }
        let sum: u128 = self.nanos + span.as_nanos();
        if sum < SPAN_END {
            Instant { nanos: sum }
        } else {
            Instant { nanos: SPAN_END - 1 }
        }
    }
}

/// From the moment `earlier` to the moment `later`; nothing where that is before.
pub open spec fn gap(earlier: nat, later: nat) -> nat {
    if later >= earlier {
        (later - earlier) as nat
    } else {
        0
    }
}

} // verus!
