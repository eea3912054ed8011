//! A duration unrolled over the ten units, for display.
//!
//! The unrolling is greedy, from the year down to the nanosecond: each unit
//! takes as many whole units as fit into what the larger units left over.
//! A negative duration unrolls to the negated components of its magnitude,
//! which is what dividing with truncation toward zero gives.
use crate::decimal::{decimal, push_decimal};
use crate::duration::{in_range, Duration, MAX_NANOS};
use crate::reread::lemma_format_reads_back;
use crate::span::{span_value, ParseErrorView};
use crate::units::{TimeUnit, UNIT_COUNT};
use vstd::prelude::*;
use vstd::string::StringExecFns;

verus! {

/// What is left of a non-negative count of nanoseconds once every unit above
/// `rank` has taken its whole units out of it.
pub open spec fn remainder(nanos: int, rank: int) -> int
    decreases rank,
{
    if rank <= 0 {
        nanos
    } else {
        remainder(nanos, rank - 1) % TimeUnit::spec_at(rank - 1).spec_magnitude()
    }
}

/// The component that the unit at `rank` gets of a count of nanoseconds.
pub open spec fn component(nanos: int, rank: int) -> int {
    if nanos >= 0 {
        remainder(nanos, rank) / TimeUnit::spec_at(rank).spec_magnitude()
    } else {
        -(remainder(-nanos, rank) / TimeUnit::spec_at(rank).spec_magnitude())
    }
}

/// The ten components of a count of nanoseconds, from the year down.
pub open spec fn breakdown(nanos: int) -> Seq<int> {
    Seq::new(UNIT_COUNT as nat, |rank: int| component(nanos, rank))
}

/// The sum of `component * magnitude` over the units from `rank` down.
pub open spec fn weighted_sum(parts: Seq<int>, rank: int) -> int
    decreases UNIT_COUNT - rank,
{
    if rank < 0 || rank >= UNIT_COUNT {
        0
    } else {
        parts[rank] * TimeUnit::spec_at(rank).spec_magnitude() + weighted_sum(parts, rank + 1)
    }
}

/// The text of one component: its value, then the unit's suffix.
pub open spec fn piece(value: int, unit: TimeUnit) -> Seq<char> {
    decimal(value) + unit.spec_suffix()
}

/// The pieces of the components from `rank` down that are not zero, with one
/// space between neighbours.
pub open spec fn pieces_from(parts: Seq<int>, rank: int) -> Seq<char>
    decreases UNIT_COUNT - rank,
{
    if rank < 0 || rank >= UNIT_COUNT {
        Seq::empty()
    } else {
        let rest = pieces_from(parts, rank + 1);
        if parts[rank] == 0 {
            rest
        } else if rest.len() == 0 {
            piece(parts[rank], TimeUnit::spec_at(rank))
        } else {
            piece(parts[rank], TimeUnit::spec_at(rank)) + seq![' '] + rest
        }
    }
}

/// The full display text of ten components.
pub open spec fn format_spec(parts: Seq<int>) -> Seq<char> {
    let text = pieces_from(parts, 0);
    if text.len() == 0 {
        seq!['0', 's']
    } else {
        text
    }
}

/// The rank of the first component at or after `rank` that is not zero;
/// the number of units where there is none.
pub open spec fn first_nonzero(parts: Seq<int>, rank: int) -> int
    decreases UNIT_COUNT - rank,
{
    if rank < 0 || rank >= UNIT_COUNT {
        UNIT_COUNT as int
    } else if parts[rank] != 0 {
        rank
    } else {
        first_nonzero(parts, rank + 1)
    }
}

/// The short display text of ten components: the largest unit that is not zero.
pub open spec fn abbreviated_spec(parts: Seq<int>) -> Seq<char> {
    let rank = first_nonzero(parts, 0);
    if rank >= UNIT_COUNT {
        seq!['0', 's']
    } else {
        piece(parts[rank], TimeUnit::spec_at(rank))
    }
}

/// Two texts with a space between them, where neither is empty.
pub open spec fn spaced(left: Seq<char>, right: Seq<char>) -> Seq<char> {
    if left.len() == 0 {
        right
    } else if right.len() == 0 {
        left
    } else {
        left + seq![' '] + right
    }
}

/// A duration unrolled into years, months, weeks, days, hours, minutes,
/// seconds, milliseconds, microseconds and nanoseconds.
#[derive(Clone, Copy, Debug, PartialEq, Eq, Structural)]
pub struct FlatTime {
    y: i64,
    mo: i64,
    w: i64,
    d: i64,
    h: i64,
    m: i64,
    s: i64,
    ms: i64,
    us: i64,
    ns: i64,
}

impl View for FlatTime {
    type V = Seq<int>;

    /// The ten components, from the year down.
    closed spec fn view(&self) -> Seq<int> {
        seq![
            self.y as int,
            self.mo as int,
            self.w as int,
            self.d as int,
            self.h as int,
            self.m as int,
            self.s as int,
            self.ms as int,
            self.us as int,
            self.ns as int,
        ]
    }
}

/// A magnitude with its sign put back.
fn signed(negative: bool, magnitude: i128) -> (r: i64)
    requires
        0 <= magnitude <= i64::MAX,
    ensures
        r == (if negative {
            -magnitude
        } else {
            magnitude as int
        }),
{
    if negative {
        (-magnitude) as i64
    } else {
        magnitude as i64
    }
}

impl vstd::std_specs::convert::FromSpecImpl<Duration> for FlatTime {
    open spec fn obeys_from_spec() -> bool {
        true
    }

    closed spec fn from_spec(value: Duration) -> FlatTime {
        FlatTime {
            y: component(value@, 0) as i64,
            mo: component(value@, 1) as i64,
            w: component(value@, 2) as i64,
            d: component(value@, 3) as i64,
            h: component(value@, 4) as i64,
            m: component(value@, 5) as i64,
            s: component(value@, 6) as i64,
            ms: component(value@, 7) as i64,
            us: component(value@, 8) as i64,
            ns: component(value@, 9) as i64,
        }
    }
}

/// Summing `component * magnitude` over the ten units of a breakdown gives
/// back the count of nanoseconds that was broken down.
pub proof fn lemma_breakdown_reconstructs(nanos: int)
    ensures
        weighted_sum(breakdown(nanos), 0) == nanos,
{
    let total = if nanos >= 0 {
        nanos
    } else {
        -nanos
    };
    lemma_weighted_tail(nanos, 0);
    assert(remainder(total, 0) == total);
}

/// The units from `rank` down weigh what the larger units left over.
pub proof fn lemma_weighted_tail(nanos: int, rank: int)
    requires
        0 <= rank <= UNIT_COUNT,
    ensures
        nanos >= 0 ==> weighted_sum(breakdown(nanos), rank) == remainder(nanos, rank),
        nanos < 0 ==> weighted_sum(breakdown(nanos), rank) == -remainder(-nanos, rank),
    decreases UNIT_COUNT - rank,
{
    let total = if nanos >= 0 {
        nanos
    } else {
        -nanos
    };
    if rank == UNIT_COUNT {
        assert(remainder(total, 10) == remainder(total, 9) % 1);
    } else {
        lemma_weighted_tail(nanos, rank + 1);
        let magnitude = TimeUnit::spec_at(rank).spec_magnitude();
        let left = remainder(total, rank);
        assert(remainder(total, rank + 1) == left % magnitude);
        assert(left == (left / magnitude) * magnitude + left % magnitude) by {
            vstd::arithmetic::div_mod::lemma_fundamental_div_mod(left, magnitude);
        }
        assert(breakdown(nanos)[rank] == component(nanos, rank));
        if nanos < 0 {
            assert((-(left / magnitude)) * magnitude == -((left / magnitude) * magnitude))
                by (nonlinear_arith);
        }
    }
}

/// A piece of text is never empty.
pub proof fn lemma_piece_nonempty(value: int, unit: TimeUnit)
    ensures
        piece(value, unit).len() >= 2,
{
    if value < 0 {
        crate::decimal::lemma_digits_denote((-value) as nat);
    } else {
        crate::decimal::lemma_digits_denote(value as nat);
    }
}

impl FlatTime {
    /// What the components weigh together, in nanoseconds.
    pub open spec fn spec_nanos(self) -> int {
        weighted_sum(self@, 0)
    }

    /// Whether the components are the breakdown of a duration.
    pub open spec fn wf(self) -> bool {
        in_range(self.spec_nanos()) && self@ == breakdown(self.spec_nanos())
    }

    #[verifier::type_invariant]
    spec fn held_as_breakdown(self) -> bool {
        self.wf()
    }

    /// The duration that was unrolled: the sum of `component * magnitude`
    /// over the ten units.
    pub fn duration(&self) -> (whole: Duration)
        ensures
            whole@ == self.spec_nanos(),
            whole.wf(),
    {
        proof {
            use_type_invariant(self);
        }
        let mut sum: i128 = 0;
        let mut rank: usize = UNIT_COUNT;
        while rank > 0
            invariant
                rank <= UNIT_COUNT,
                sum == weighted_sum(self@, rank as int),
                -(UNIT_COUNT - rank) * 0x8000_0000_0000_0000 * 31_536_000_000_000_000 <= sum <= (
                UNIT_COUNT - rank) * 0x8000_0000_0000_0000 * 31_536_000_000_000_000,
            decreases rank,
        {
            rank = rank - 1;
            let unit = TimeUnit::at(rank);
            let value: i128 = self.component(unit) as i128;
            let magnitude: i128 = unit.magnitude();
            assert(-0x8000_0000_0000_0000 * 31_536_000_000_000_000 <= value * magnitude
                <= 0x8000_0000_0000_0000 * 31_536_000_000_000_000) by (nonlinear_arith)
                requires
                    -0x8000_0000_0000_0000 <= value <= 0x8000_0000_0000_0000,
                    1 <= magnitude <= 31_536_000_000_000_000,
            ;
            sum = sum + value * magnitude;
        }
        match Duration::from_nanos(sum) {
            Some(whole) => whole,
            None => {
                proof {
                    assert(false);
                }
                vstd::pervasive::unreached()
            },
        }
    }

    /// The component of one unit.
    pub fn component(&self, unit: TimeUnit) -> (value: i64)
        ensures
            value == self@[unit.spec_rank()],
    {
        match unit {
            TimeUnit::Year => self.y,
            TimeUnit::Month => self.mo,
            TimeUnit::Week => self.w,
            TimeUnit::Day => self.d,
            TimeUnit::Hour => self.h,
            TimeUnit::Minute => self.m,
            TimeUnit::Second => self.s,
            TimeUnit::Millisecond => self.ms,
            TimeUnit::Microsecond => self.us,
            TimeUnit::Nanosecond => self.ns,
        }
    }

    /// The ten components with their units, from the year down.
    pub fn components(&self) -> (pairs: Vec<(i64, TimeUnit)>)
        ensures
            pairs@.len() == UNIT_COUNT,
            forall|rank: int|
                0 <= rank < UNIT_COUNT ==> (#[trigger] pairs@[rank]).0 == self@[rank]
                    && pairs@[rank].1 == TimeUnit::spec_at(rank),
    {
        let mut pairs: Vec<(i64, TimeUnit)> = Vec::new();
        let mut rank: usize = 0;
        while rank < UNIT_COUNT
            invariant
                rank <= UNIT_COUNT,
                pairs@.len() == rank,
                forall|j: int|
                    0 <= j < rank ==> (#[trigger] pairs@[j]).0 == self@[j] && pairs@[j].1
                        == TimeUnit::spec_at(j),
            decreases UNIT_COUNT - rank,
        {
            let unit = TimeUnit::at(rank);
            pairs.push((self.component(unit), unit));
            rank = rank + 1;
        }
        pairs
    }

    /// The short display text: the largest unit whose component is not zero,
    /// as its value and suffix; `0s` where every component is zero.
    pub fn format_abbreviated(&self) -> (text: String)
        ensures
            text@ == abbreviated_spec(self@),
    {
        let mut text = String::new();
        let mut rank: usize = 0;
        while rank < UNIT_COUNT
            invariant
                rank <= UNIT_COUNT,
                text@.len() == 0,
                first_nonzero(self@, 0) == first_nonzero(self@, rank as int),
            decreases UNIT_COUNT - rank,
        {
            let unit = TimeUnit::at(rank);
            let value = self.component(unit);
            if value != 0 {
                push_decimal(&mut text, value);
                text.append(unit.suffix());
                assert(text@ =~= piece(value as int, unit));
                return text;
            }
            rank = rank + 1;
        }
        proof {
            reveal_strlit("0s");
        }
        text.append("0s");
        assert(text@ =~= seq!['0', 's']);
        text
    }

    /// The full display text: the value and suffix of every unit whose
    /// component is not zero, from the year down, with one space between
    /// neighbours; `0s` where every component is zero.
    ///
    /// The text is a span expression, and it is worth the duration that was
    /// unrolled.
    pub fn format(&self) -> (text: String)
        ensures
            text@ == format_spec(self@),
            span_value(text@) == Ok::<int, ParseErrorView>(self.spec_nanos()),
    {
        proof {
            use_type_invariant(self);
            lemma_format_reads_back(self.spec_nanos());
        }
        let mut text = String::new();
        let mut first: bool = true;
        let mut rank: usize = 0;
        while rank < UNIT_COUNT
            invariant
                rank <= UNIT_COUNT,
                first == (text@.len() == 0),
                pieces_from(self@, 0) == spaced(text@, pieces_from(self@, rank as int)),
            decreases UNIT_COUNT - rank,
        {
            let unit = TimeUnit::at(rank);
            let value = self.component(unit);
            if value != 0 {
                let ghost before = text@;
                let ghost rest = pieces_from(self@, rank as int + 1);
                if !first {
                    proof {
                        reveal_strlit(" ");
                    }
                    text.append(" ");
                }
                first = false;
                push_decimal(&mut text, value);
                text.append(unit.suffix());
                proof {
                    let one = piece(value as int, unit);
                    lemma_piece_nonempty(value as int, unit);
                    if before.len() == 0 {
                        assert(text@ =~= one);
                    } else {
                        assert(text@ =~= before + seq![' '] + one);
                    }
                    assert(spaced(text@, rest) =~= spaced(before, pieces_from(self@, rank as int)));
                }
            }
            rank = rank + 1;
        }
        if first {
            proof {
                reveal_strlit("0s");
            }
            text.append("0s");
            assert(text@ =~= seq!['0', 's']);
        }
        text
    }
}

/// Below every unit's turn, what is left is smaller than the unit before it,
/// and no component is too large for 64 bits.
pub proof fn lemma_remainder_bounds(nanos: int, rank: int)
    requires
        0 <= nanos <= MAX_NANOS,
        0 <= rank < UNIT_COUNT,
    ensures
        0 <= remainder(nanos, rank) <= nanos,
        rank > 0 ==> remainder(nanos, rank) < TimeUnit::spec_at(rank - 1).spec_magnitude(),
        0 <= remainder(nanos, rank) / TimeUnit::spec_at(rank).spec_magnitude() <= 292_471_208,
    decreases rank,
{
    if rank > 0 {
        lemma_remainder_bounds(nanos, rank - 1);
    }
}

/// Takes the whole units of one unit out of what the larger units left.
fn split(rest: i128, unit: TimeUnit, Ghost(total): Ghost<int>) -> (taken: (i128, i128))
    requires
        0 <= total <= MAX_NANOS,
        rest == remainder(total, unit.spec_rank()),
    ensures
        taken.0 == remainder(total, unit.spec_rank()) / unit.spec_magnitude(),
        taken.1 == remainder(total, unit.spec_rank() + 1),
        0 <= taken.0 <= 292_471_208,
{
    let magnitude: i128 = unit.magnitude();
    proof {
        lemma_remainder_bounds(total, unit.spec_rank());
        assert(TimeUnit::spec_at(unit.spec_rank()) == unit);
    }
    (rest / magnitude, rest % magnitude)
}

impl From<Duration> for FlatTime {
    /// Unrolls a duration over the ten units. Every duration can be
    /// unrolled: no step of it can fail, and no component is too large.
    fn from(value: Duration) -> (flat: FlatTime)
        ensures
            flat@ == breakdown(value@),
            flat.spec_nanos() == value@,
            flat.wf(),
    {
        proof {
            lemma_breakdown_reconstructs(value@);
        }
        let nanos: i128 = value.total_nanos();
        let negative: bool = nanos < 0;
        let total: i128 = if negative {
            -nanos
        } else {
            nanos
        };
        let ghost t = total as int;
        let (y, rest) = split(total, TimeUnit::Year, Ghost(t));
        let (mo, rest) = split(rest, TimeUnit::Month, Ghost(t));
        let (w, rest) = split(rest, TimeUnit::Week, Ghost(t));
        let (d, rest) = split(rest, TimeUnit::Day, Ghost(t));
        let (h, rest) = split(rest, TimeUnit::Hour, Ghost(t));
        let (m, rest) = split(rest, TimeUnit::Minute, Ghost(t));
        let (s, rest) = split(rest, TimeUnit::Second, Ghost(t));
        let (ms, rest) = split(rest, TimeUnit::Millisecond, Ghost(t));
        let (us, rest) = split(rest, TimeUnit::Microsecond, Ghost(t));
        let (ns, _) = split(rest, TimeUnit::Nanosecond, Ghost(t));
        let y: i64 = signed(negative, y);
        let mo: i64 = signed(negative, mo);
        let w: i64 = signed(negative, w);
        let d: i64 = signed(negative, d);
        let h: i64 = signed(negative, h);
        let m: i64 = signed(negative, m);
        let s: i64 = signed(negative, s);
        let ms: i64 = signed(negative, ms);
        let us: i64 = signed(negative, us);
        let ns: i64 = signed(negative, ns);
        assert(seq![
            y as int,
            mo as int,
            w as int,
            d as int,
            h as int,
            m as int,
            s as int,
            ms as int,
            us as int,
            ns as int,
        ] =~= breakdown(value@));
        FlatTime { y, mo, w, d, h, m, s, ms, us, ns }
    }
}

} // verus!
