//! An exact, signed amount of time, counted in nanoseconds.
use crate::units::TimeUnit;
use vstd::prelude::*;

verus! {

/// The longest duration that can be held: `i64::MAX` milliseconds, in nanoseconds.
pub const MAX_NANOS: i128 = 9_223_372_036_854_775_807_000_000;

/// The shortest (most negative) duration that can be held.
pub const MIN_NANOS: i128 = -9_223_372_036_854_775_807_000_000;

/// Whether a count of nanoseconds is one that a [`Duration`] can hold.
pub open spec fn in_range(nanos: int) -> bool {
    MIN_NANOS <= nanos <= MAX_NANOS
}

/// A signed span of time with nanosecond resolution.
///
/// All arithmetic on it is exact integer arithmetic; an operation whose
/// result would leave the range reports that instead of wrapping.
#[derive(Clone, Copy, Debug, PartialEq, Eq, Structural)]
pub struct Duration {
    nanos: i128,
}

impl View for Duration {
    type V = int;

    /// The duration as a count of nanoseconds.
    closed spec fn view(&self) -> int {
        self.nanos as int
    }
}

impl Duration {
    #[verifier::type_invariant]
    spec fn held_in_range(self) -> bool {
        in_range(self.nanos as int)
    }

    /// Whether the value is one that the library hands out.
    pub open spec fn wf(self) -> bool {
        in_range(self@)
    }

    /// The duration of no time at all.
    pub fn zero() -> (d: Duration)
        ensures
            d@ == 0,
            d.wf(),
    {
        Duration { nanos: 0 }
    }

    /// The duration of so many nanoseconds, where it can be held.
    pub fn from_nanos(nanos: i128) -> (r: Option<Duration>)
        ensures
            r is Some <==> in_range(nanos as int),
            r is Some ==> r.unwrap()@ == nanos && r.unwrap().wf(),
    {
        if MIN_NANOS <= nanos && nanos <= MAX_NANOS {
            Some(Duration { nanos })
        } else {
            None
        }
    }

    /// The duration of `quantity` units, where it can be held.
    pub fn of(quantity: i64, unit: TimeUnit) -> (r: Option<Duration>)
        ensures
            r is Some <==> in_range(quantity * unit.spec_magnitude()),
            r is Some ==> r.unwrap()@ == quantity * unit.spec_magnitude() && r.unwrap().wf(),
    {
        let magnitude: i128 = unit.magnitude();
        let wide: i128 = quantity as i128;
        assert(-0x8000_0000_0000_0000 * 31_536_000_000_000_000 <= wide * magnitude
            <= 0x8000_0000_0000_0000 * 31_536_000_000_000_000) by (nonlinear_arith)
            requires
                -0x8000_0000_0000_0000 <= wide <= 0x8000_0000_0000_0000,
                1 <= magnitude <= 31_536_000_000_000_000,
        ;
        Duration::from_nanos(wide * magnitude)
    }

    /// The duration as a count of nanoseconds.
    pub fn total_nanos(&self) -> (n: i128)
        ensures
            n == self@,
            in_range(n as int),
    {
        proof {
            use_type_invariant(self);
        }
        self.nanos
    }

    /// The sum of two durations, where it can be held.
    pub fn checked_add(self, other: Duration) -> (r: Option<Duration>)
        ensures
            r is Some <==> in_range(self@ + other@),
            r is Some ==> r.unwrap()@ == self@ + other@ && r.unwrap().wf(),
    {
        proof {
            use_type_invariant(self);
            use_type_invariant(other);
        }
        Duration::from_nanos(self.nanos + other.nanos)
    }

    /// The difference of two durations, where it can be held.
    pub fn checked_sub(self, other: Duration) -> (r: Option<Duration>)
        ensures
            r is Some <==> in_range(self@ - other@),
            r is Some ==> r.unwrap()@ == self@ - other@ && r.unwrap().wf(),
    {
        proof {
            use_type_invariant(self);
            use_type_invariant(other);
        }
        Duration::from_nanos(self.nanos - other.nanos)
    }
}

} // verus!
