//! The spellings under which a span expression may name a unit.
//!
//! The table covers the spellings of systemd's time spans, and nanoseconds
//! besides. Spellings are matched case-sensitively.
use crate::units::TimeUnit;
use vstd::prelude::*;

verus! {

/// How many spellings the alias table holds.
pub const ALIAS_COUNT: usize = 37;

/// The spelling at a place of the alias table. Spellings are case-sensitive:
/// `M` is the month and `m` the minute.
pub open spec fn alias_text(k: int) -> Seq<char> {
    if k == 0 {
        "y"@
    } else if k == 1 {
        "Y"@
    } else if k == 2 {
        "year"@
    } else if k == 3 {
        "years"@
    } else if k == 4 {
        "M"@
    } else if k == 5 {
        "month"@
    } else if k == 6 {
        "months"@
    } else if k == 7 {
        "w"@
    } else if k == 8 {
        "week"@
    } else if k == 9 {
        "weeks"@
    } else if k == 10 {
        "d"@
    } else if k == 11 {
        "day"@
    } else if k == 12 {
        "days"@
    } else if k == 13 {
        "h"@
    } else if k == 14 {
        "hr"@
    } else if k == 15 {
        "hour"@
    } else if k == 16 {
        "hours"@
    } else if k == 17 {
        "m"@
    } else if k == 18 {
        "min"@
    } else if k == 19 {
        "minute"@
    } else if k == 20 {
        "minutes"@
    } else if k == 21 {
        "s"@
    } else if k == 22 {
        "sec"@
    } else if k == 23 {
        "second"@
    } else if k == 24 {
        "seconds"@
    } else if k == 25 {
        "ms"@
    } else if k == 26 {
        "msec"@
    } else if k == 27 {
        "millisecond"@
    } else if k == 28 {
        "milliseconds"@
    } else if k == 29 {
        "us"@
    } else if k == 30 {
        "usec"@
    } else if k == 31 {
        "microsecond"@
    } else if k == 32 {
        "microseconds"@
    } else if k == 33 {
        "ns"@
    } else if k == 34 {
        "nsec"@
    } else if k == 35 {
        "nanosecond"@
    } else {
        "nanoseconds"@
    }
}

/// The unit that the spelling at a place of the alias table denotes.
pub open spec fn alias_unit(k: int) -> TimeUnit {
    if k < 4 {
        TimeUnit::Year
    } else if k < 7 {
        TimeUnit::Month
    } else if k < 10 {
        TimeUnit::Week
    } else if k < 13 {
        TimeUnit::Day
    } else if k < 17 {
        TimeUnit::Hour
    } else if k < 21 {
        TimeUnit::Minute
    } else if k < 25 {
        TimeUnit::Second
    } else if k < 29 {
        TimeUnit::Millisecond
    } else if k < 33 {
        TimeUnit::Microsecond
    } else {
        TimeUnit::Nanosecond
    }
}

/// The spelling and the unit at a place of the alias table.
pub(crate) fn alias(k: usize) -> (entry: (&'static str, TimeUnit))
    requires
        k < ALIAS_COUNT,
    ensures
        entry.0@ == alias_text(k as int),
        entry.1 == alias_unit(k as int),
{
    match k {
        0 => ("y", TimeUnit::Year),
        1 => ("Y", TimeUnit::Year),
        2 => ("year", TimeUnit::Year),
        3 => ("years", TimeUnit::Year),
        4 => ("M", TimeUnit::Month),
        5 => ("month", TimeUnit::Month),
        6 => ("months", TimeUnit::Month),
        7 => ("w", TimeUnit::Week),
        8 => ("week", TimeUnit::Week),
        9 => ("weeks", TimeUnit::Week),
        10 => ("d", TimeUnit::Day),
        11 => ("day", TimeUnit::Day),
        12 => ("days", TimeUnit::Day),
        13 => ("h", TimeUnit::Hour),
        14 => ("hr", TimeUnit::Hour),
        15 => ("hour", TimeUnit::Hour),
        16 => ("hours", TimeUnit::Hour),
        17 => ("m", TimeUnit::Minute),
        18 => ("min", TimeUnit::Minute),
        19 => ("minute", TimeUnit::Minute),
        20 => ("minutes", TimeUnit::Minute),
        21 => ("s", TimeUnit::Second),
        22 => ("sec", TimeUnit::Second),
        23 => ("second", TimeUnit::Second),
        24 => ("seconds", TimeUnit::Second),
        25 => ("ms", TimeUnit::Millisecond),
        26 => ("msec", TimeUnit::Millisecond),
        27 => ("millisecond", TimeUnit::Millisecond),
        28 => ("milliseconds", TimeUnit::Millisecond),
        29 => ("us", TimeUnit::Microsecond),
        30 => ("usec", TimeUnit::Microsecond),
        31 => ("microsecond", TimeUnit::Microsecond),
        32 => ("microseconds", TimeUnit::Microsecond),
        33 => ("ns", TimeUnit::Nanosecond),
        34 => ("nsec", TimeUnit::Nanosecond),
        35 => ("nanosecond", TimeUnit::Nanosecond),
        _ => ("nanoseconds", TimeUnit::Nanosecond),
    }
}

/// What the spellings of the alias table hold, character by character.
pub proof fn lemma_alias_texts()
    ensures
        alias_text(0) == seq!['y'],
        alias_text(1) == seq!['Y'],
        alias_text(2) == seq!['y', 'e', 'a', 'r'],
        alias_text(3) == seq!['y', 'e', 'a', 'r', 's'],
        alias_text(4) == seq!['M'],
        alias_text(5) == seq!['m', 'o', 'n', 't', 'h'],
        alias_text(6) == seq!['m', 'o', 'n', 't', 'h', 's'],
        alias_text(7) == seq!['w'],
        alias_text(8) == seq!['w', 'e', 'e', 'k'],
        alias_text(9) == seq!['w', 'e', 'e', 'k', 's'],
        alias_text(10) == seq!['d'],
        alias_text(11) == seq!['d', 'a', 'y'],
        alias_text(12) == seq!['d', 'a', 'y', 's'],
        alias_text(13) == seq!['h'],
        alias_text(14) == seq!['h', 'r'],
        alias_text(15) == seq!['h', 'o', 'u', 'r'],
        alias_text(16) == seq!['h', 'o', 'u', 'r', 's'],
        alias_text(17) == seq!['m'],
        alias_text(18) == seq!['m', 'i', 'n'],
        alias_text(19) == seq!['m', 'i', 'n', 'u', 't', 'e'],
        alias_text(20) == seq!['m', 'i', 'n', 'u', 't', 'e', 's'],
        alias_text(21) == seq!['s'],
        alias_text(22) == seq!['s', 'e', 'c'],
        alias_text(23) == seq!['s', 'e', 'c', 'o', 'n', 'd'],
        alias_text(24) == seq!['s', 'e', 'c', 'o', 'n', 'd', 's'],
        alias_text(25) == seq!['m', 's'],
        alias_text(26) == seq!['m', 's', 'e', 'c'],
        alias_text(27) == seq!['m', 'i', 'l', 'l', 'i', 's', 'e', 'c', 'o', 'n', 'd'],
        alias_text(28) == seq!['m', 'i', 'l', 'l', 'i', 's', 'e', 'c', 'o', 'n', 'd', 's'],
        alias_text(29) == seq!['u', 's'],
        alias_text(30) == seq!['u', 's', 'e', 'c'],
        alias_text(31) == seq!['m', 'i', 'c', 'r', 'o', 's', 'e', 'c', 'o', 'n', 'd'],
        alias_text(32) == seq!['m', 'i', 'c', 'r', 'o', 's', 'e', 'c', 'o', 'n', 'd', 's'],
        alias_text(33) == seq!['n', 's'],
        alias_text(34) == seq!['n', 's', 'e', 'c'],
        alias_text(35) == seq!['n', 'a', 'n', 'o', 's', 'e', 'c', 'o', 'n', 'd'],
        alias_text(36) == seq!['n', 'a', 'n', 'o', 's', 'e', 'c', 'o', 'n', 'd', 's'],
{
    reveal_strlit("y");
    reveal_strlit("Y");
    reveal_strlit("year");
    reveal_strlit("years");
    reveal_strlit("M");
    reveal_strlit("month");
    reveal_strlit("months");
    reveal_strlit("w");
    reveal_strlit("week");
    reveal_strlit("weeks");
    reveal_strlit("d");
    reveal_strlit("day");
    reveal_strlit("days");
    reveal_strlit("h");
    reveal_strlit("hr");
    reveal_strlit("hour");
    reveal_strlit("hours");
    reveal_strlit("m");
    reveal_strlit("min");
    reveal_strlit("minute");
    reveal_strlit("minutes");
    reveal_strlit("s");
    reveal_strlit("sec");
    reveal_strlit("second");
    reveal_strlit("seconds");
    reveal_strlit("ms");
    reveal_strlit("msec");
    reveal_strlit("millisecond");
    reveal_strlit("milliseconds");
    reveal_strlit("us");
    reveal_strlit("usec");
    reveal_strlit("microsecond");
    reveal_strlit("microseconds");
    reveal_strlit("ns");
    reveal_strlit("nsec");
    reveal_strlit("nanosecond");
    reveal_strlit("nanoseconds");
    assert(alias_text(0) =~= seq!['y']);
    assert(alias_text(1) =~= seq!['Y']);
    assert(alias_text(2) =~= seq!['y', 'e', 'a', 'r']);
    assert(alias_text(3) =~= seq!['y', 'e', 'a', 'r', 's']);
    assert(alias_text(4) =~= seq!['M']);
    assert(alias_text(5) =~= seq!['m', 'o', 'n', 't', 'h']);
    assert(alias_text(6) =~= seq!['m', 'o', 'n', 't', 'h', 's']);
    assert(alias_text(7) =~= seq!['w']);
    assert(alias_text(8) =~= seq!['w', 'e', 'e', 'k']);
    assert(alias_text(9) =~= seq!['w', 'e', 'e', 'k', 's']);
    assert(alias_text(10) =~= seq!['d']);
    assert(alias_text(11) =~= seq!['d', 'a', 'y']);
    assert(alias_text(12) =~= seq!['d', 'a', 'y', 's']);
    assert(alias_text(13) =~= seq!['h']);
    assert(alias_text(14) =~= seq!['h', 'r']);
    assert(alias_text(15) =~= seq!['h', 'o', 'u', 'r']);
    assert(alias_text(16) =~= seq!['h', 'o', 'u', 'r', 's']);
    assert(alias_text(17) =~= seq!['m']);
    assert(alias_text(18) =~= seq!['m', 'i', 'n']);
    assert(alias_text(19) =~= seq!['m', 'i', 'n', 'u', 't', 'e']);
    assert(alias_text(20) =~= seq!['m', 'i', 'n', 'u', 't', 'e', 's']);
    assert(alias_text(21) =~= seq!['s']);
    assert(alias_text(22) =~= seq!['s', 'e', 'c']);
    assert(alias_text(23) =~= seq!['s', 'e', 'c', 'o', 'n', 'd']);
    assert(alias_text(24) =~= seq!['s', 'e', 'c', 'o', 'n', 'd', 's']);
    assert(alias_text(25) =~= seq!['m', 's']);
    assert(alias_text(26) =~= seq!['m', 's', 'e', 'c']);
    assert(alias_text(27) =~= seq!['m', 'i', 'l', 'l', 'i', 's', 'e', 'c', 'o', 'n', 'd']);
    assert(alias_text(28) =~= seq!['m', 'i', 'l', 'l', 'i', 's', 'e', 'c', 'o', 'n', 'd', 's']);
    assert(alias_text(29) =~= seq!['u', 's']);
    assert(alias_text(30) =~= seq!['u', 's', 'e', 'c']);
    assert(alias_text(31) =~= seq!['m', 'i', 'c', 'r', 'o', 's', 'e', 'c', 'o', 'n', 'd']);
    assert(alias_text(32) =~= seq!['m', 'i', 'c', 'r', 'o', 's', 'e', 'c', 'o', 'n', 'd', 's']);
    assert(alias_text(33) =~= seq!['n', 's']);
    assert(alias_text(34) =~= seq!['n', 's', 'e', 'c']);
    assert(alias_text(35) =~= seq!['n', 'a', 'n', 'o', 's', 'e', 'c', 'o', 'n', 'd']);
    assert(alias_text(36) =~= seq!['n', 'a', 'n', 'o', 's', 'e', 'c', 'o', 'n', 'd', 's']);
}

/// Whether a character is a letter of the Latin alphabet.
pub open spec fn is_letter(c: char) -> bool {
    ('a' <= c <= 'z') || ('A' <= c <= 'Z')
}

/// Whether every character of a text is a letter.
pub open spec fn all_letters(s: Seq<char>) -> bool {
    forall|i: int| 0 <= i < s.len() ==> is_letter(#[trigger] s[i])
}

/// The place in the alias table of the suffix that display uses for a unit.
pub open spec fn suffix_place(unit: TimeUnit) -> int {
    match unit {
        TimeUnit::Year => 0,
        TimeUnit::Month => 4,
        TimeUnit::Week => 7,
        TimeUnit::Day => 10,
        TimeUnit::Hour => 13,
        TimeUnit::Minute => 17,
        TimeUnit::Second => 21,
        TimeUnit::Millisecond => 25,
        TimeUnit::Microsecond => 29,
        TimeUnit::Nanosecond => 33,
    }
}

/// Every spelling is made of letters, at least one.
pub proof fn lemma_alias_letters(k: int)
    requires
        0 <= k < ALIAS_COUNT,
    ensures
        alias_text(k).len() >= 1,
        all_letters(alias_text(k)),
{
    lemma_alias_texts();
}

/// The suffix that display uses for a unit is a spelling of that unit, and
/// of no other unit.
pub proof fn lemma_suffix_is_alias(unit: TimeUnit)
    ensures
        0 <= suffix_place(unit) < ALIAS_COUNT,
        alias_text(suffix_place(unit)) == unit.spec_suffix(),
        alias_unit(suffix_place(unit)) == unit,
        forall|k: int|
            0 <= k < ALIAS_COUNT && alias_text(k) == unit.spec_suffix() ==> alias_unit(k) == unit,
{
    lemma_alias_texts();
    assert forall|k: int|
        0 <= k < ALIAS_COUNT && alias_text(k) == unit.spec_suffix() implies alias_unit(k)
        == unit by {
        let word = alias_text(k);
        let suffix = unit.spec_suffix();
        assert(word.len() == suffix.len());
        assert(word[0] == suffix[0]);
        if suffix.len() == 2 {
            assert(word[1] == suffix[1]);
        }
    }
}

} // verus!
