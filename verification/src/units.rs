//! The ten units of time, their fixed magnitudes and their display suffixes.
//!
//! A year is exactly 365 days and a month exactly 30 days. This is a
//! deliberate simplification: the units form a fixed ladder, not a calendar.
use vstd::prelude::*;

verus! {

/// Nanoseconds in a microsecond.
pub const NANOS_PER_MICROSECOND: i128 = 1_000;

/// Nanoseconds in a millisecond.
pub const NANOS_PER_MILLISECOND: i128 = 1_000_000;

/// Nanoseconds in a second.
pub const NANOS_PER_SECOND: i128 = 1_000_000_000;

/// Nanoseconds in a minute.
pub const NANOS_PER_MINUTE: i128 = 60_000_000_000;

/// Nanoseconds in an hour.
pub const NANOS_PER_HOUR: i128 = 3_600_000_000_000;

/// Nanoseconds in a day.
pub const NANOS_PER_DAY: i128 = 86_400_000_000_000;

/// Nanoseconds in a week of seven days.
pub const NANOS_PER_WEEK: i128 = 604_800_000_000_000;

/// Nanoseconds in a month of thirty days.
pub const NANOS_PER_MONTH: i128 = 2_592_000_000_000_000;

/// Nanoseconds in a year of 365 days.
pub const NANOS_PER_YEAR: i128 = 31_536_000_000_000_000;

/// How many units there are.
pub const UNIT_COUNT: usize = 10;

/// A unit of time. The variants stand in descending order of magnitude.
#[derive(Clone, Copy, Debug, PartialEq, Eq, Structural)]
pub enum TimeUnit {
    Year,
    Month,
    Week,
    Day,
    Hour,
    Minute,
    Second,
    Millisecond,
    Microsecond,
    Nanosecond,
}

impl TimeUnit {
    /// The length of one unit, in nanoseconds.
    pub open spec fn spec_magnitude(self) -> int {
        match self {
            TimeUnit::Year => 31_536_000_000_000_000,
            TimeUnit::Month => 2_592_000_000_000_000,
            TimeUnit::Week => 604_800_000_000_000,
            TimeUnit::Day => 86_400_000_000_000,
            TimeUnit::Hour => 3_600_000_000_000,
            TimeUnit::Minute => 60_000_000_000,
            TimeUnit::Second => 1_000_000_000,
            TimeUnit::Millisecond => 1_000_000,
            TimeUnit::Microsecond => 1_000,
            TimeUnit::Nanosecond => 1,
        }
    }

    /// The place of the unit on the ladder: 0 for the year, 9 for the nanosecond.
    pub open spec fn spec_rank(self) -> int {
        match self {
            TimeUnit::Year => 0,
            TimeUnit::Month => 1,
            TimeUnit::Week => 2,
            TimeUnit::Day => 3,
            TimeUnit::Hour => 4,
            TimeUnit::Minute => 5,
            TimeUnit::Second => 6,
            TimeUnit::Millisecond => 7,
            TimeUnit::Microsecond => 8,
            TimeUnit::Nanosecond => 9,
        }
    }

    /// The unit that stands at a place of the ladder.
    pub open spec fn spec_at(rank: int) -> TimeUnit {
        if rank <= 0 {
            TimeUnit::Year
        } else if rank == 1 {
            TimeUnit::Month
        } else if rank == 2 {
            TimeUnit::Week
        } else if rank == 3 {
            TimeUnit::Day
        } else if rank == 4 {
            TimeUnit::Hour
        } else if rank == 5 {
            TimeUnit::Minute
        } else if rank == 6 {
            TimeUnit::Second
        } else if rank == 7 {
            TimeUnit::Millisecond
        } else if rank == 8 {
            TimeUnit::Microsecond
        } else {
            TimeUnit::Nanosecond
        }
    }

    /// The short token that display uses for the unit.
    pub open spec fn spec_suffix(self) -> Seq<char> {
        match self {
            TimeUnit::Year => seq!['y'],
            TimeUnit::Month => seq!['M'],
            TimeUnit::Week => seq!['w'],
            TimeUnit::Day => seq!['d'],
            TimeUnit::Hour => seq!['h'],
            TimeUnit::Minute => seq!['m'],
            TimeUnit::Second => seq!['s'],
            TimeUnit::Millisecond => seq!['m', 's'],
            TimeUnit::Microsecond => seq!['u', 's'],
            TimeUnit::Nanosecond => seq!['n', 's'],
        }
    }

    /// The length of one unit, in nanoseconds.
    pub fn magnitude(self) -> (m: i128)
        ensures
            m == self.spec_magnitude(),
            1 <= m <= NANOS_PER_YEAR,
    {
        match self {
            TimeUnit::Year => NANOS_PER_YEAR,
            TimeUnit::Month => NANOS_PER_MONTH,
            TimeUnit::Week => NANOS_PER_WEEK,
            TimeUnit::Day => NANOS_PER_DAY,
            TimeUnit::Hour => NANOS_PER_HOUR,
            TimeUnit::Minute => NANOS_PER_MINUTE,
            TimeUnit::Second => NANOS_PER_SECOND,
            TimeUnit::Millisecond => NANOS_PER_MILLISECOND,
            TimeUnit::Microsecond => NANOS_PER_MICROSECOND,
            TimeUnit::Nanosecond => 1,
        }
    }

    /// The place of the unit on the ladder: 0 for the year, 9 for the nanosecond.
    pub fn rank(self) -> (r: usize)
        ensures
            r == self.spec_rank(),
            r < UNIT_COUNT,
            TimeUnit::spec_at(r as int) == self,
    {
        match self {
            TimeUnit::Year => 0,
            TimeUnit::Month => 1,
            TimeUnit::Week => 2,
            TimeUnit::Day => 3,
            TimeUnit::Hour => 4,
            TimeUnit::Minute => 5,
            TimeUnit::Second => 6,
            TimeUnit::Millisecond => 7,
            TimeUnit::Microsecond => 8,
            TimeUnit::Nanosecond => 9,
        }
    }

    /// The unit that stands at a place of the ladder.
    pub(crate) fn at(rank: usize) -> (u: TimeUnit)
        requires
            rank < UNIT_COUNT,
        ensures
            u == TimeUnit::spec_at(rank as int),
            u.spec_rank() == rank,
    {
        if rank == 0 {
            TimeUnit::Year
        } else if rank == 1 {
            TimeUnit::Month
        } else if rank == 2 {
            TimeUnit::Week
        } else if rank == 3 {
            TimeUnit::Day
        } else if rank == 4 {
            TimeUnit::Hour
        } else if rank == 5 {
            TimeUnit::Minute
        } else if rank == 6 {
            TimeUnit::Second
        } else if rank == 7 {
            TimeUnit::Millisecond
        } else if rank == 8 {
            TimeUnit::Microsecond
        } else {
            TimeUnit::Nanosecond
        }
    }

    /// The short token that display uses for the unit.
    pub fn suffix(self) -> (s: &'static str)
        ensures
            s@ == self.spec_suffix(),
    {
        proof {
            reveal_strlit("y");
            reveal_strlit("M");
            reveal_strlit("w");
            reveal_strlit("d");
            reveal_strlit("h");
            reveal_strlit("m");
            reveal_strlit("s");
            reveal_strlit("ms");
            reveal_strlit("us");
            reveal_strlit("ns");
        }
        let s = match self {
            TimeUnit::Year => "y",
            TimeUnit::Month => "M",
            TimeUnit::Week => "w",
            TimeUnit::Day => "d",
            TimeUnit::Hour => "h",
            TimeUnit::Minute => "m",
            TimeUnit::Second => "s",
            TimeUnit::Millisecond => "ms",
            TimeUnit::Microsecond => "us",
            TimeUnit::Nanosecond => "ns",
        };
        assert(s@ =~= self.spec_suffix());
        s
    }
}

} // verus!
