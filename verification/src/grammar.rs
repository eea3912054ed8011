//! The grammar of span expressions, and the scanner that reads them.
//!
//! ```text
//! time_span    := span_element (spaces span_element)*
//! span_element := quantity unit
//! quantity     := spaces sign? digit+ spaces     (a whole number of 64 bits)
//! unit         := the longest spelling of the alias table that fits
//! ```
//!
//! Positions count characters, not bytes.
use crate::aliases::{alias, alias_text, alias_unit, ALIAS_COUNT};
use crate::decimal::{digit_of, digits_value, is_digit};
use crate::units::TimeUnit;
use vstd::prelude::*;
use vstd::string::StrSliceExecFns;

verus! {

/// What the scanner was looking for where it gave up.
#[derive(Clone, Copy, Debug, PartialEq, Eq, Structural)]
pub enum Expected {
    /// A whole number of 64 bits, with or without a sign.
    Quantity,
    /// One of the spellings of a unit.
    Unit,
}

/// One `(quantity, unit)` pair of a span expression.
#[derive(Clone, Copy, Debug, PartialEq, Eq, Structural)]
pub struct SpanElement {
    pub quantity: i64,
    pub unit: TimeUnit,
}

/// Where reading an element failed, and for want of what.
#[derive(Clone, Copy, Debug, PartialEq, Eq, Structural)]
pub struct Rejection {
    /// The position, in characters, at which the missing token should start.
    pub position: usize,
    pub expected: Expected,
}

/// A [`Rejection`] at a mathematical position.
pub ghost struct RejectionView {
    pub position: int,
    pub expected: Expected,
}

impl View for Rejection {
    type V = RejectionView;

    open spec fn view(&self) -> RejectionView {
        RejectionView { position: self.position as int, expected: self.expected }
    }
}

/// An element that was read, and the position behind it.
pub ghost struct Reading {
    pub element: SpanElement,
    pub end: int,
}

/// The elements that were read one after another, and the position behind the last.
pub ghost struct Scan {
    pub elements: Seq<SpanElement>,
    pub end: int,
}

/// Whether a character is white space.
pub open spec fn is_space(c: char) -> bool {
    c == ' ' || c == '\t' || c == '\n' || c == '\r'
}

/// The first position at or after `at` that holds no white space.
pub open spec fn spaces_end(s: Seq<char>, at: int) -> int
    decreases s.len() - at,
{
    if 0 <= at < s.len() && is_space(s[at]) {
        spaces_end(s, at + 1)
    } else {
        at
    }
}

/// The first position at or after `at` that holds no digit.
pub open spec fn digits_end(s: Seq<char>, at: int) -> int
    decreases s.len() - at,
{
    if 0 <= at < s.len() && is_digit(s[at]) {
        digits_end(s, at + 1)
    } else {
        at
    }
}

/// Whether the text holds the spelling `k` of the alias table at `at`.
pub open spec fn alias_fits(s: Seq<char>, at: int, k: int) -> bool {
    let word = alias_text(k);
    0 <= at && at + word.len() <= s.len() && s.subrange(at, at + word.len()) == word
}

/// The place in the alias table of the longest of its first `count`
/// spellings that the text holds at `at`.
pub open spec fn longest_alias(s: Seq<char>, at: int, count: int) -> Option<int>
    decreases count,
{
    if count <= 0 {
        None
    } else {
        let earlier = longest_alias(s, at, count - 1);
        let k = count - 1;
        if alias_fits(s, at, k) && (earlier is None || alias_text(earlier.unwrap()).len()
            < alias_text(k).len()) {
            Some(k)
        } else {
            earlier
        }
    }
}

/// The number that a sign and a run of digits denote.
pub open spec fn quantity_value(negative: bool, digits: Seq<char>) -> int {
    if negative {
        -(digits_value(digits) as int)
    } else {
        digits_value(digits) as int
    }
}

/// Reads one element at `at`: white space, a quantity, white space, a unit.
pub open spec fn element_at(s: Seq<char>, at: int) -> Result<Reading, RejectionView> {
    let start = spaces_end(s, at);
    let signed = 0 <= start < s.len() && (s[start] == '+' || s[start] == '-');
    let negative = signed && s[start] == '-';
    let first_digit = if signed {
        start + 1
    } else {
        start
    };
    let after_digits = digits_end(s, first_digit);
    let value = quantity_value(negative, s.subrange(first_digit, after_digits));
    if after_digits == first_digit || !(i64::MIN <= value <= i64::MAX) {
        Err(RejectionView { position: start, expected: Expected::Quantity })
    } else {
        let unit_start = spaces_end(s, after_digits);
        match longest_alias(s, unit_start, ALIAS_COUNT as int) {
            None => Err(RejectionView { position: unit_start, expected: Expected::Unit }),
            Some(k) => Ok(
                Reading {
                    element: SpanElement { quantity: value as i64, unit: alias_unit(k) },
                    end: unit_start + alias_text(k).len(),
                },
            ),
        }
    }
}

/// Reads elements from `at` on, one behind the other, for as long as one can be read.
pub open spec fn read_from(s: Seq<char>, at: int) -> Scan
    decreases s.len() - at,
    when 0 <= at <= s.len()
{
    match element_at(s, at) {
        Err(_) => Scan { elements: Seq::empty(), end: at },
        Ok(reading) => {
            proof {
                lemma_element_advances(s, at);
            }
            let rest = read_from(s, reading.end);
            Scan { elements: seq![reading.element] + rest.elements, end: rest.end }
        },
    }
}

/// White space ends at or after the place where it was looked for, within the text.
pub proof fn lemma_spaces_end(s: Seq<char>, at: int)
    requires
        0 <= at <= s.len(),
    ensures
        at <= spaces_end(s, at) <= s.len(),
        forall|i: int| at <= i < spaces_end(s, at) ==> is_space(#[trigger] s[i]),
        spaces_end(s, at) < s.len() ==> !is_space(s[spaces_end(s, at)]),
    decreases s.len() - at,
{
    if at < s.len() && is_space(s[at]) {
        lemma_spaces_end(s, at + 1);
    }
}

/// A run of digits ends at or after the place where it was looked for, within the text.
pub proof fn lemma_digits_end(s: Seq<char>, at: int)
    requires
        0 <= at <= s.len(),
    ensures
        at <= digits_end(s, at) <= s.len(),
        forall|i: int| at <= i < digits_end(s, at) ==> is_digit(#[trigger] s[i]),
        digits_end(s, at) < s.len() ==> !is_digit(s[digits_end(s, at)]),
    decreases s.len() - at,
{
    if at < s.len() && is_digit(s[at]) {
        lemma_digits_end(s, at + 1);
    }
}

/// The spelling that is chosen fits, and no spelling that fits is longer.
pub proof fn lemma_longest_alias(s: Seq<char>, at: int, count: int)
    requires
        0 <= count <= ALIAS_COUNT,
    ensures
        match longest_alias(s, at, count) {
            None => forall|k: int| 0 <= k < count ==> !alias_fits(s, at, k),
            Some(best) => 0 <= best < count && alias_fits(s, at, best) && forall|k: int|
                0 <= k < count && alias_fits(s, at, k) ==> alias_text(k).len() <= alias_text(
                    best,
                ).len(),
        },
    decreases count,
{
    if count > 0 {
        lemma_longest_alias(s, at, count - 1);
    }
}

/// An element that was read ends behind the place where it started, within the text.
pub proof fn lemma_element_advances(s: Seq<char>, at: int)
    requires
        0 <= at <= s.len(),
    ensures
        match element_at(s, at) {
            Ok(reading) => at < reading.end <= s.len(),
            Err(rejection) => at <= rejection.position <= s.len(),
        },
{
    lemma_spaces_end(s, at);
    let start = spaces_end(s, at);
    let signed = 0 <= start < s.len() && (s[start] == '+' || s[start] == '-');
    let first_digit = if signed {
        start + 1
    } else {
        start
    };
    lemma_digits_end(s, first_digit);
    let after_digits = digits_end(s, first_digit);
    lemma_spaces_end(s, after_digits);
    lemma_longest_alias(s, spaces_end(s, after_digits), ALIAS_COUNT as int);
}

/// A reading with its position counted from `by` characters further left.
pub open spec fn shifted(
    outcome: Result<Reading, RejectionView>,
    by: int,
) -> Result<Reading, RejectionView> {
    match outcome {
        Ok(reading) => Ok(Reading { element: reading.element, end: reading.end - by }),
        Err(rejection) => Err(
            RejectionView { position: rejection.position - by, expected: rejection.expected },
        ),
    }
}

/// White space ends in the tail of a text where it ends in the text.
pub proof fn lemma_spaces_end_in_tail(s: Seq<char>, cut: int, at: int)
    requires
        0 <= cut <= s.len(),
        0 <= at <= s.len() - cut,
    ensures
        spaces_end(s.subrange(cut, s.len() as int), at) == spaces_end(s, cut + at) - cut,
    decreases s.len() - cut - at,
{
    let tail = s.subrange(cut, s.len() as int);
    if at < tail.len() && is_space(tail[at]) {
        lemma_spaces_end_in_tail(s, cut, at + 1);
    }
}

/// A run of digits ends in the tail of a text where it ends in the text.
pub proof fn lemma_digits_end_in_tail(s: Seq<char>, cut: int, at: int)
    requires
        0 <= cut <= s.len(),
        0 <= at <= s.len() - cut,
    ensures
        digits_end(s.subrange(cut, s.len() as int), at) == digits_end(s, cut + at) - cut,
    decreases s.len() - cut - at,
{
    let tail = s.subrange(cut, s.len() as int);
    if at < tail.len() && is_digit(tail[at]) {
        lemma_digits_end_in_tail(s, cut, at + 1);
    }
}

/// The tail of a text holds the spellings that the text holds there.
pub proof fn lemma_longest_alias_in_tail(s: Seq<char>, cut: int, at: int, count: int)
    requires
        0 <= cut <= s.len(),
        0 <= at <= s.len() - cut,
        0 <= count,
    ensures
        longest_alias(s.subrange(cut, s.len() as int), at, count) == longest_alias(
            s,
            cut + at,
            count,
        ),
    decreases count,
{
    if count > 0 {
        lemma_longest_alias_in_tail(s, cut, at, count - 1);
        let tail = s.subrange(cut, s.len() as int);
        let word = alias_text(count - 1);
        if at + word.len() <= tail.len() {
            assert(tail.subrange(at, at + word.len()) =~= s.subrange(
                cut + at,
                cut + at + word.len(),
            ));
        }
    }
}

/// Reading an element in the tail of a text gives what reading it in the
/// text gives, with positions counted from the cut.
pub proof fn lemma_element_in_tail(s: Seq<char>, cut: int, at: int)
    requires
        0 <= cut <= s.len(),
        0 <= at <= s.len() - cut,
    ensures
        element_at(s.subrange(cut, s.len() as int), at) == shifted(element_at(s, cut + at), cut),
{
    let tail = s.subrange(cut, s.len() as int);
    lemma_spaces_end_in_tail(s, cut, at);
    lemma_spaces_end(s, cut + at);
    let start = spaces_end(tail, at);
    let signed = 0 <= start < tail.len() && (tail[start] == '+' || tail[start] == '-');
    let first_digit = if signed {
        start + 1
    } else {
        start
    };
    lemma_digits_end_in_tail(s, cut, first_digit);
    lemma_digits_end(s, cut + first_digit);
    let after_digits = digits_end(tail, first_digit);
    assert(tail.subrange(first_digit, after_digits) =~= s.subrange(
        cut + first_digit,
        cut + after_digits,
    ));
    lemma_spaces_end_in_tail(s, cut, after_digits);
    lemma_spaces_end(s, cut + after_digits);
    lemma_longest_alias_in_tail(s, cut, spaces_end(tail, after_digits), ALIAS_COUNT as int);
}

/// Reading the tail of a text gives the elements that reading the text from
/// the cut gives, and ends at the same place.
pub proof fn lemma_read_in_tail(s: Seq<char>, cut: int, at: int)
    requires
        0 <= cut <= s.len(),
        0 <= at <= s.len() - cut,
    ensures
        read_from(s.subrange(cut, s.len() as int), at).elements == read_from(
            s,
            cut + at,
        ).elements,
        read_from(s.subrange(cut, s.len() as int), at).end == read_from(s, cut + at).end - cut,
    decreases s.len() - cut - at,
{
    let tail = s.subrange(cut, s.len() as int);
    lemma_element_in_tail(s, cut, at);
    lemma_element_advances(s, cut + at);
    match element_at(s, cut + at) {
        Ok(reading) => {
            lemma_read_in_tail(s, cut, reading.end - cut);
        },
        Err(_) => {},
    }
}

/// Whether a character is white space.
fn space(c: char) -> (b: bool)
    ensures
        b == is_space(c),
{
    c == ' ' || c == '\t' || c == '\n' || c == '\r'
}

/// The digit that a character stands for, where it is one.
fn digit(c: char) -> (d: Option<u8>)
    ensures
        d is Some <==> is_digit(c),
        d is Some ==> d.unwrap() == digit_of(c) && d.unwrap() < 10,
{
    let code: u32 = c as u32;
    if 48 <= code && code <= 57 {
        Some((code - 48) as u8)
    } else {
        None
    }
}

/// Passes over white space.
fn skip_spaces(text: &Vec<char>, at: usize) -> (end: usize)
    requires
        at <= text@.len(),
    ensures
        end == spaces_end(text@, at as int),
        at <= end <= text@.len(),
{
    let mut end: usize = at;
    while end < text.len() && space(text[end])
        invariant
            at <= end <= text@.len(),
            spaces_end(text@, at as int) == spaces_end(text@, end as int),
        decreases text@.len() - end,
    {
        end = end + 1;
    }
    end
}

/// The bound that a run of digits may reach as a quantity: the magnitude of `i64::MIN`.
pub const QUANTITY_LIMIT: i128 = 0x8000_0000_0000_0000;

/// Passes over a run of digits and works out the number it denotes, unless
/// that number is beyond [`QUANTITY_LIMIT`].
fn read_digits(text: &Vec<char>, at: usize) -> (run: (usize, Option<i128>))
    requires
        at <= text@.len(),
    ensures
        run.0 == digits_end(text@, at as int),
        at <= run.0 <= text@.len(),
        run.1 is Some <==> digits_value(text@.subrange(at as int, run.0 as int))
            <= QUANTITY_LIMIT,
        run.1 is Some ==> run.1.unwrap() == digits_value(
            text@.subrange(at as int, run.0 as int),
        ),
{
    let mut end: usize = at;
    let mut value: i128 = 0;
    let mut fits: bool = true;
    assert(text@.subrange(at as int, at as int).len() == 0);
    loop
        invariant
            at <= end <= text@.len(),
            digits_end(text@, at as int) == digits_end(text@, end as int),
            0 <= value <= QUANTITY_LIMIT,
            fits ==> value == digits_value(text@.subrange(at as int, end as int)),
            !fits ==> digits_value(text@.subrange(at as int, end as int)) > QUANTITY_LIMIT,
        ensures
            at <= end <= text@.len(),
            end == digits_end(text@, at as int),
            0 <= value <= QUANTITY_LIMIT,
            fits ==> value == digits_value(text@.subrange(at as int, end as int)),
            !fits ==> digits_value(text@.subrange(at as int, end as int)) > QUANTITY_LIMIT,
        decreases text@.len() - end,
    {
        if end >= text.len() {
            break ;
        }
        let d = match digit(text[end]) {
            Some(d) => d,
            None => {
                break ;
            },
        };
        proof {
            let before = text@.subrange(at as int, end as int);
            let after = text@.subrange(at as int, end as int + 1);
            assert(after.drop_last() =~= before);
            assert(after.last() == text@[end as int]);
            assert(digits_value(after) == digits_value(before) * 10 + d);
        }
        if fits {
            let next: i128 = value * 10 + d as i128;
            if next > QUANTITY_LIMIT {
                fits = false;
            } else {
                value = next;
            }
        }
        end = end + 1;
    }
    if fits {
        (end, Some(value))
    } else {
        (end, None)
    }
}

/// Whether the text holds a word at `at`.
fn holds_word(text: &Vec<char>, at: usize, word: &str) -> (b: bool)
    requires
        at <= text@.len(),
    ensures
        b == (at + word@.len() <= text@.len() && text@.subrange(
            at as int,
            at + word@.len(),
        ) == word@),
{
    let length: usize = word.unicode_len();
    let total: usize = text.len();
    if length > total - at {
        return false;
    }
    let mut j: usize = 0;
    while j < length
        invariant
            j <= length,
            length == word@.len(),
            total == text@.len(),
            at + length <= total,
            forall|t: int| 0 <= t < j ==> text@[at + t] == word@[t],
        decreases length - j,
    {
        if text[at + j] != word.get_char(j) {
            assert(text@.subrange(at as int, at + word@.len())[j as int] != word@[j as int]);
            return false;
        }
        j = j + 1;
    }
    assert(text@.subrange(at as int, at + word@.len()) =~= word@);
    true
}

/// Finds the longest spelling of a unit that the text holds at `at`.
fn read_unit(text: &Vec<char>, at: usize) -> (found: Option<(TimeUnit, usize)>)
    requires
        at <= text@.len(),
    ensures
        match longest_alias(text@, at as int, ALIAS_COUNT as int) {
            None => found is None,
            Some(k) => found == Some((alias_unit(k), (at + alias_text(k).len()) as usize)) && at
                + alias_text(k).len() <= text@.len(),
        },
{
    let mut found: Option<(TimeUnit, usize)> = None;
    let mut longest: usize = 0;
    let total: usize = text.len();
    let mut k: usize = 0;
    while k < ALIAS_COUNT
        invariant
            k <= ALIAS_COUNT,
            at <= text@.len(),
            total == text@.len(),
            match longest_alias(text@, at as int, k as int) {
                None => found is None,
                Some(best) => found == Some((alias_unit(best), (at + longest) as usize))
                    && longest == alias_text(best).len() && at + longest <= text@.len(),
            },
        decreases ALIAS_COUNT - k,
    {
        let (word, unit) = alias(k);
        if holds_word(text, at, word) {
            let length: usize = word.unicode_len();
            if found.is_none() || longest < length {
                found = Some((unit, at + length));
                longest = length;
            }
        }
        k = k + 1;
    }
    found
}

/// Reads one element at `at`: white space, a quantity, white space, a unit.
/// Gives the element and the position behind it, or says where reading
/// failed and for want of what.
pub(crate) fn read_element(text: &Vec<char>, at: usize) -> (result: Result<(SpanElement, usize), Rejection>)
    requires
        at <= text@.len(),
    ensures
        match element_at(text@, at as int) {
            Ok(reading) => result == Ok::<(SpanElement, usize), Rejection>(
                (reading.element, reading.end as usize),
            ) && at < reading.end <= text@.len(),
            Err(rejection) => result is Err && result.unwrap_err()@ == rejection,
        },
{
    let start: usize = skip_spaces(text, at);
    let mut negative: bool = false;
    let mut first_digit: usize = start;
    if start < text.len() {
        let c: char = text[start];
        if c == '+' || c == '-' {
            negative = c == '-';
            first_digit = start + 1;
        }
    }
    let (after_digits, magnitude) = read_digits(text, first_digit);
    let quantity: i64 = match magnitude {
        Some(m) => {
            if after_digits == first_digit {
                return Err(Rejection { position: start, expected: Expected::Quantity });
            } else if negative {
                (-m) as i64
            } else if m < QUANTITY_LIMIT {
                m as i64
            } else {
                return Err(Rejection { position: start, expected: Expected::Quantity });
            }
        },
        None => {
            return Err(Rejection { position: start, expected: Expected::Quantity });
        },
    };
    let unit_start: usize = skip_spaces(text, after_digits);
    proof {
        lemma_element_advances(text@, at as int);
    }
    match read_unit(text, unit_start) {
        Some((unit, end)) => Ok((SpanElement { quantity, unit }, end)),
        None => Err(Rejection { position: unit_start, expected: Expected::Unit }),
    }
}

/// Reads elements from the start of the text, one behind the other, for as
/// long as one can be read. Gives the elements, the position behind the
/// last of them, and what stopped the reading there.
pub fn read_elements(text: &Vec<char>) -> (scan: (Vec<SpanElement>, usize, Rejection))
    ensures
        scan.0@ == read_from(text@, 0).elements,
        scan.1 == read_from(text@, 0).end,
        scan.1 <= text@.len(),
        element_at(text@, scan.1 as int) == Err::<Reading, RejectionView>(scan.2@),
{
    let mut elements: Vec<SpanElement> = Vec::new();
    let total: usize = text.len();
    let mut at: usize = 0;
    loop
        invariant
            at <= text@.len(),
            total == text@.len(),
            read_from(text@, 0).elements == elements@ + read_from(text@, at as int).elements,
            read_from(text@, 0).end == read_from(text@, at as int).end,
        decreases text@.len() - at,
    {
        match read_element(text, at) {
            Ok((element, end)) => {
                proof {
                    let rest = read_from(text@, end as int);
                    assert(read_from(text@, at as int) == Scan {
                        elements: seq![element] + rest.elements,
                        end: rest.end,
                    });
                    assert(elements@.push(element) + rest.elements =~= elements@ + (seq![element]
                        + rest.elements));
                }
                elements.push(element);
                at = end;
            },
            Err(rejection) => {
                assert(read_from(text@, at as int) == Scan {
                    elements: Seq::<SpanElement>::empty(),
                    end: at as int,
                });
                assert(elements@ + Seq::<SpanElement>::empty() =~= elements@);
                return (elements, at, rejection);
            },
        }
    }
}

} // verus!
