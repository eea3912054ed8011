//! Display text reads back: what `format` writes of a duration's breakdown
//! is a span expression that is worth the duration.
use crate::aliases::{
    alias_text, alias_unit, is_letter, lemma_alias_letters, lemma_suffix_is_alias, suffix_place,
    ALIAS_COUNT,
};
use crate::decimal::{digits, is_digit, lemma_digits_denote};
use crate::duration::{in_range, MAX_NANOS};
use crate::flat::{
    breakdown, component, format_spec, lemma_piece_nonempty, lemma_remainder_bounds,
    lemma_weighted_tail, piece, pieces_from, remainder, weighted_sum,
};
use crate::grammar::{
    alias_fits, digits_end, element_at, is_space, lemma_element_in_tail, lemma_longest_alias,
    lemma_read_in_tail, longest_alias, read_from, spaces_end, Reading, RejectionView, Scan,
    SpanElement,
};
use crate::span::{element_nanos, lemma_read_stops, running_total, span_value, ParseErrorView};
use crate::units::{TimeUnit, UNIT_COUNT};
use vstd::prelude::*;

verus! {

/// A run of digits that something other than a digit follows ends behind its last digit.
pub proof fn lemma_digits_end_of_run(s: Seq<char>, at: int, run: int)
    requires
        0 <= at,
        0 <= run,
        at + run <= s.len(),
        forall|i: int| at <= i < at + run ==> is_digit(#[trigger] s[i]),
        at + run == s.len() || !is_digit(s[at + run]),
    ensures
        digits_end(s, at) == at + run,
    decreases run,
{
    if run > 0 {
        assert(is_digit(s[at]));
        lemma_digits_end_of_run(s, at + 1, run - 1);
    }
}

/// Where a unit's display suffix stands, and the text ends or a space
/// follows, the unit that is read is that unit, by a spelling as long as the suffix.
pub proof fn lemma_suffix_reads(s: Seq<char>, at: int, unit: TimeUnit)
    requires
        0 <= at,
        at + unit.spec_suffix().len() <= s.len(),
        s.subrange(at, at + unit.spec_suffix().len()) == unit.spec_suffix(),
        at + unit.spec_suffix().len() == s.len() || s[at + unit.spec_suffix().len()] == ' ',
    ensures
        longest_alias(s, at, ALIAS_COUNT as int) is Some,
        alias_unit(longest_alias(s, at, ALIAS_COUNT as int).unwrap()) == unit,
        alias_text(longest_alias(s, at, ALIAS_COUNT as int).unwrap()).len()
            == unit.spec_suffix().len(),
{
    let suffix = unit.spec_suffix();
    lemma_suffix_is_alias(unit);
    lemma_longest_alias(s, at, ALIAS_COUNT as int);
    assert(alias_fits(s, at, suffix_place(unit)));
    let best = longest_alias(s, at, ALIAS_COUNT as int).unwrap();
    let word = alias_text(best);
    lemma_alias_letters(best);
    if word.len() > suffix.len() {
        let behind = suffix.len() as int;
        assert(s.subrange(at, at + word.len())[behind] == s[at + behind]);
        assert(is_letter(word[behind]));
    }
    assert(word.len() == suffix.len());
}

/// A text that starts with the display text of a component, and then ends
/// or goes on with a space, starts with an element: the component's value
/// in the component's unit, as long as that display text.
pub proof fn lemma_piece_reads(s: Seq<char>, value: int, unit: TimeUnit)
    requires
        i64::MIN <= value <= i64::MAX,
        piece(value, unit).len() <= s.len(),
        s.subrange(0, piece(value, unit).len() as int) == piece(value, unit),
        piece(value, unit).len() == s.len() || s[piece(value, unit).len() as int] == ' ',
    ensures
        element_at(s, 0) == Ok::<Reading, RejectionView>(
            Reading {
                element: SpanElement { quantity: value as i64, unit },
                end: piece(value, unit).len() as int,
            },
        ),
{
    let text = piece(value, unit);
    let suffix = unit.spec_suffix();
    let magnitude: nat = if value < 0 {
        (-value) as nat
    } else {
        value as nat
    };
    let figures = digits(magnitude);
    lemma_digits_denote(magnitude);
    let first_digit: int = if value < 0 {
        1
    } else {
        0
    };
    let after_digits = first_digit + figures.len();
    assert(text.len() == after_digits + suffix.len());
    assert forall|i: int| 0 <= i < text.len() implies s[i] == text[i] by {
        assert(s.subrange(0, text.len() as int)[i] == s[i]);
    }
    assert forall|i: int| first_digit <= i < after_digits implies is_digit(#[trigger] s[i]) by {
        assert(s[i] == text[i]);
        assert(text[i] == figures[i - first_digit]);
    }
    assert(s[after_digits] == suffix[0]) by {
        assert(s[after_digits] == text[after_digits]);
    }
    assert(!is_digit(suffix[0]) && !is_space(suffix[0]));
    assert(s[0] == text[0]);
    if value < 0 {
        assert(s[0] == '-');
    } else {
        assert(s[0] == figures[0]);
        assert(is_digit(s[0]));
    }
    assert(spaces_end(s, 0) == 0);
    lemma_digits_end_of_run(s, first_digit, figures.len() as int);
    assert(s.subrange(first_digit, after_digits) =~= figures);
    assert(spaces_end(s, after_digits) == after_digits);
    assert(s.subrange(after_digits, after_digits + suffix.len()) =~= suffix);
    lemma_suffix_reads(s, after_digits, unit);
}

/// The elements that the components from `rank` down stand for: one for
/// each component that is not zero.
pub open spec fn nonzero_elements(parts: Seq<int>, rank: int) -> Seq<SpanElement>
    decreases UNIT_COUNT - rank,
{
    if rank < 0 || rank >= UNIT_COUNT {
        Seq::empty()
    } else {
        let rest = nonzero_elements(parts, rank + 1);
        if parts[rank] == 0 {
            rest
        } else {
            seq![SpanElement { quantity: parts[rank] as i64, unit: TimeUnit::spec_at(rank) }]
                + rest
        }
    }
}

/// Whether each of ten components is a whole number of 64 bits.
pub open spec fn fits_elements(parts: Seq<int>) -> bool {
    parts.len() == UNIT_COUNT && forall|rank: int|
        0 <= rank < UNIT_COUNT ==> i64::MIN <= #[trigger] parts[rank] <= i64::MAX
}

/// At the end of a text nothing is read.
pub proof fn lemma_nothing_at_end(s: Seq<char>)
    ensures
        element_at(s, s.len() as int) is Err,
        read_from(s, s.len() as int) == (Scan {
            elements: Seq::<SpanElement>::empty(),
            end: s.len() as int,
        }),
{
    assert(spaces_end(s, s.len() as int) == s.len());
    assert(digits_end(s, s.len() as int) == s.len());
}

/// The display text of one component reads, whole, as one element.
pub proof fn lemma_piece_alone_reads(value: int, unit: TimeUnit)
    requires
        i64::MIN <= value <= i64::MAX,
    ensures
        read_from(piece(value, unit), 0) == (Scan {
            elements: seq![SpanElement { quantity: value as i64, unit }],
            end: piece(value, unit).len() as int,
        }),
{
    let text = piece(value, unit);
    let element = SpanElement { quantity: value as i64, unit };
    lemma_piece_nonempty(value, unit);
    assert(text.subrange(0, text.len() as int) =~= text);
    lemma_piece_reads(text, value, unit);
    lemma_nothing_at_end(text);
    assert(seq![element] + Seq::<SpanElement>::empty() =~= seq![element]);
}

/// A space in front of an element belongs to it: reading from the space
/// gives what reading from behind the space gives.
pub proof fn lemma_space_is_skipped(s: Seq<char>, at: int)
    requires
        0 <= at < s.len(),
        s[at] == ' ',
        element_at(s, at + 1) is Ok,
    ensures
        read_from(s, at) == read_from(s, at + 1),
{
    assert(spaces_end(s, at) == spaces_end(s, at + 1));
    assert(element_at(s, at) == element_at(s, at + 1));
}

/// The display text of one component, a space, and a text that reads,
/// whole, as some elements, read, whole, as the component's element and
/// then those elements.
pub proof fn lemma_piece_then_rest_reads(
    value: int,
    unit: TimeUnit,
    rest: Seq<char>,
    elements: Seq<SpanElement>,
)
    requires
        i64::MIN <= value <= i64::MAX,
        elements.len() > 0,
        read_from(rest, 0) == (Scan { elements, end: rest.len() as int }),
    ensures
        read_from(piece(value, unit) + seq![' '] + rest, 0) == (Scan {
            elements: seq![SpanElement { quantity: value as i64, unit }] + elements,
            end: (piece(value, unit) + seq![' '] + rest).len() as int,
        }),
{
    let one = piece(value, unit);
    let text = one + seq![' '] + rest;
    let gap = one.len() as int;
    let cut = gap + 1;
    lemma_piece_nonempty(value, unit);
    assert(text.subrange(0, gap) =~= one);
    assert(text[gap] == ' ');
    lemma_piece_reads(text, value, unit);
    assert(text.subrange(cut, text.len() as int) =~= rest);
    lemma_element_in_tail(text, cut, 0);
    lemma_read_in_tail(text, cut, 0);
    lemma_read_stops(rest, 0);
    lemma_space_is_skipped(text, gap);
}

/// The display text of the components from `rank` down reads, whole, as
/// the elements that those components stand for.
pub proof fn lemma_pieces_read(parts: Seq<int>, rank: int)
    requires
        fits_elements(parts),
        0 <= rank <= UNIT_COUNT,
    ensures
        read_from(pieces_from(parts, rank), 0) == (Scan {
            elements: nonzero_elements(parts, rank),
            end: pieces_from(parts, rank).len() as int,
        }),
        pieces_from(parts, rank).len() == 0 <==> nonzero_elements(parts, rank).len() == 0,
    decreases UNIT_COUNT - rank,
{
    if rank == UNIT_COUNT {
        lemma_nothing_at_end(Seq::<char>::empty());
    } else {
        lemma_pieces_read(parts, rank + 1);
        let value = parts[rank];
        let unit = TimeUnit::spec_at(rank);
        let rest = pieces_from(parts, rank + 1);
        if value != 0 {
            lemma_piece_nonempty(value, unit);
            if rest.len() == 0 {
                lemma_piece_alone_reads(value, unit);
                assert(nonzero_elements(parts, rank) =~= seq![
                    SpanElement { quantity: value as i64, unit },
                ]);
            } else {
                lemma_piece_then_rest_reads(
                    value,
                    unit,
                    rest,
                    nonzero_elements(parts, rank + 1),
                );
            }
        }
    }
}

/// The total that adding up the elements arrives at, starting from `start`.
pub open spec fn running_total_from(start: int, elements: Seq<SpanElement>) -> Option<int>
    decreases elements.len(),
{
    if elements.len() == 0 {
        Some(start)
    } else {
        match running_total_from(start, elements.drop_last()) {
            None => None,
            Some(before) => {
                let worth = element_nanos(elements.last());
                if in_range(worth) && in_range(before + worth) {
                    Some(before + worth)
                } else {
                    None
                }
            },
        }
    }
}

/// The running total is the running total from zero.
pub proof fn lemma_running_total_from_zero(elements: Seq<SpanElement>)
    ensures
        running_total(elements) == running_total_from(0, elements),
    decreases elements.len(),
{
    if elements.len() > 0 {
        lemma_running_total_from_zero(elements.drop_last());
    }
}

/// Adding up from `start` with one element in front is adding up the rest
/// from what `start` and that element come to.
pub proof fn lemma_running_total_step(start: int, element: SpanElement, rest: Seq<SpanElement>)
    ensures
        running_total_from(start, seq![element] + rest) == (if in_range(element_nanos(element))
            && in_range(start + element_nanos(element)) {
            running_total_from(start + element_nanos(element), rest)
        } else {
            None
        }),
    decreases rest.len(),
{
    let all = seq![element] + rest;
    if rest.len() == 0 {
        assert(all.drop_last() =~= Seq::<SpanElement>::empty());
        assert(all.last() == element);
        assert(running_total_from(start, all.drop_last()) == Some(start));
    } else {
        lemma_running_total_step(start, element, rest.drop_last());
        assert(all.drop_last() =~= seq![element] + rest.drop_last());
        assert(all.last() == rest.last());
    }
}

/// The components of a duration are whole numbers of 64 bits.
pub proof fn lemma_breakdown_fits(nanos: int)
    requires
        in_range(nanos),
    ensures
        fits_elements(breakdown(nanos)),
{
    let total = if nanos >= 0 {
        nanos
    } else {
        -nanos
    };
    assert forall|rank: int| 0 <= rank < UNIT_COUNT implies i64::MIN <= #[trigger] breakdown(
        nanos,
    )[rank] <= i64::MAX by {
        lemma_remainder_bounds(total, rank);
    }
}

/// What the larger units left over is never negative, never more than the
/// whole, and never more than what was left the step before.
pub proof fn lemma_remainder_shrinks(nanos: int, rank: int)
    requires
        0 <= nanos <= MAX_NANOS,
        0 <= rank < UNIT_COUNT,
    ensures
        0 <= remainder(nanos, rank + 1) <= remainder(nanos, rank) <= nanos,
{
    lemma_remainder_bounds(nanos, rank);
}

/// Adding up the elements that the components from `rank` down stand for,
/// starting from what the larger units weigh, arrives at the duration.
pub proof fn lemma_breakdown_adds_up(nanos: int, rank: int)
    requires
        in_range(nanos),
        0 <= rank <= UNIT_COUNT,
    ensures
        running_total_from(
            nanos - weighted_sum(breakdown(nanos), rank),
            nonzero_elements(breakdown(nanos), rank),
        ) == Some(nanos),
    decreases UNIT_COUNT - rank,
{
    let parts = breakdown(nanos);
    if rank < UNIT_COUNT {
        lemma_breakdown_adds_up(nanos, rank + 1);
        lemma_breakdown_fits(nanos);
        let total = if nanos >= 0 {
            nanos
        } else {
            -nanos
        };
        lemma_weighted_tail(nanos, rank);
        lemma_weighted_tail(nanos, rank + 1);
        lemma_remainder_shrinks(total, rank);
        if parts[rank] != 0 {
            let element = SpanElement {
                quantity: parts[rank] as i64,
                unit: TimeUnit::spec_at(rank),
            };
            assert(element_nanos(element) == weighted_sum(parts, rank) - weighted_sum(
                parts,
                rank + 1,
            ));
            lemma_running_total_step(
                nanos - weighted_sum(parts, rank),
                element,
                nonzero_elements(parts, rank + 1),
            );
        }
    }
}

/// What `format` writes of the breakdown of a duration is a span expression
/// that is worth that duration.
pub proof fn lemma_format_reads_back(nanos: int)
    requires
        in_range(nanos),
    ensures
        span_value(format_spec(breakdown(nanos))) == Ok::<int, ParseErrorView>(nanos),
{
    let parts = breakdown(nanos);
    let elements = nonzero_elements(parts, 0);
    lemma_breakdown_fits(nanos);
    lemma_pieces_read(parts, 0);
    lemma_breakdown_adds_up(nanos, 0);
    crate::flat::lemma_breakdown_reconstructs(nanos);
    lemma_running_total_from_zero(elements);
    if pieces_from(parts, 0).len() == 0 {
        assert(nanos == 0);
        let zero = piece(0, TimeUnit::Second);
        assert(zero =~= seq!['0', 's']);
        lemma_piece_alone_reads(0, TimeUnit::Second);
        let only = seq![SpanElement { quantity: 0, unit: TimeUnit::Second }];
        assert(only.drop_last() =~= Seq::<SpanElement>::empty());
        assert(running_total(only.drop_last()) == Some(0int));
        assert(running_total(only) == Some(0int));
    }
}

} // verus!
