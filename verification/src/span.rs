//! Reading a span expression into a duration.
//!
//! An expression such as `1y 6M 3w 5d 4h 20m 30s` is read element by
//! element; each element is worth its quantity times the magnitude of its
//! unit, and the expression is worth the sum. The order of the elements does
//! not matter, a unit may occur more than once, and a negative quantity
//! takes away from the sum.
use crate::duration::{in_range, Duration};
use crate::grammar::{
    element_at, lemma_element_advances, lemma_element_in_tail, read_elements, read_from,
    Rejection, RejectionView, SpanElement,
};
use vstd::prelude::*;
use vstd::string::{StrSliceExecFns, StringExecFns};

verus! {

/// Why a span expression could not be read into a duration.
#[derive(Debug, PartialEq, Eq)]
pub enum ParseError {
    /// The text does not start with an element; an empty text is such a text.
    Rejected(Rejection),
    /// The text starts with elements, but something that is no element
    /// follows them. `matched` is what was read, `unmatched` is the rest,
    /// and `cause` says why the rest, read on its own, is rejected.
    Partial { matched: String, unmatched: String, cause: Rejection },
    /// An element, or the running total, is more than a duration can hold.
    Overflow,
}

/// A [`ParseError`] over mathematical texts and positions.
pub ghost enum ParseErrorView {
    Rejected(RejectionView),
    Partial { matched: Seq<char>, unmatched: Seq<char>, cause: RejectionView },
    Overflow,
}

impl View for ParseError {
    type V = ParseErrorView;

    open spec fn view(&self) -> ParseErrorView {
        match self {
            ParseError::Rejected(rejection) => ParseErrorView::Rejected(rejection@),
            ParseError::Partial { matched, unmatched, cause } => ParseErrorView::Partial {
                matched: matched@,
                unmatched: unmatched@,
                cause: cause@,
            },
            ParseError::Overflow => ParseErrorView::Overflow,
        }
    }
}

/// What one element is worth, in nanoseconds.
pub open spec fn element_nanos(element: SpanElement) -> int {
    element.quantity * element.unit.spec_magnitude()
}

/// What the elements are worth together, in nanoseconds.
pub open spec fn total_nanos(elements: Seq<SpanElement>) -> int
    decreases elements.len(),
{
    if elements.len() == 0 {
        0
    } else {
        total_nanos(elements.drop_last()) + element_nanos(elements.last())
    }
}

/// The total that adding up the elements from first to last arrives at,
/// starting from zero; `None` where an element, or the total after an
/// element, is more than a duration can hold.
pub open spec fn running_total(elements: Seq<SpanElement>) -> Option<int>
    decreases elements.len(),
{
    if elements.len() == 0 {
        Some(0)
    } else {
        match running_total(elements.drop_last()) {
            None => None,
            Some(before) => {
                let worth = element_nanos(elements.last());
                if in_range(worth) && in_range(before + worth) {
                    Some(before + worth)
                } else {
                    None
                }
            },
        }
    }
}

/// Why a text that does not start with an element is rejected.
pub open spec fn rejection_of(s: Seq<char>) -> RejectionView {
    match element_at(s, 0) {
        Err(rejection) => rejection,
        Ok(_) => arbitrary(),
    }
}

/// What a span expression is worth, in nanoseconds, or why it cannot be read.
pub open spec fn span_value(s: Seq<char>) -> Result<int, ParseErrorView> {
    let scan = read_from(s, 0);
    if scan.elements.len() == 0 {
        Err(ParseErrorView::Rejected(rejection_of(s)))
    } else if scan.end < s.len() {
        let unmatched = s.subrange(scan.end, s.len() as int);
        Err(
            ParseErrorView::Partial {
                matched: s.subrange(0, scan.end),
                unmatched,
                cause: rejection_of(unmatched),
            },
        )
    } else {
        match running_total(scan.elements) {
            Some(total) => Ok(total),
            None => Err(ParseErrorView::Overflow),
        }
    }
}

/// Reading stops behind the last element: within the text, at a place where
/// no element starts; and at the start of the text only where no element was read.
pub proof fn lemma_read_stops(s: Seq<char>, at: int)
    requires
        0 <= at <= s.len(),
    ensures
        at <= read_from(s, at).end <= s.len(),
        element_at(s, read_from(s, at).end) is Err,
        read_from(s, at).elements.len() == 0 <==> element_at(s, at) is Err,
        read_from(s, at).elements.len() == 0 <==> read_from(s, at).end == at,
    decreases s.len() - at,
{
    lemma_element_advances(s, at);
    match element_at(s, at) {
        Ok(reading) => {
            lemma_read_stops(s, reading.end);
        },
        Err(_) => {},
    }
}

/// What is left behind the elements of a text does not, read on its own,
/// start with an element: it is rejected, for the reason that stopped the
/// reading of the whole text.
pub proof fn lemma_rest_is_rejected(s: Seq<char>)
    ensures
        ({
            let end = read_from(s, 0).end;
            let rest = s.subrange(end, s.len() as int);
            &&& element_at(rest, 0) is Err
            &&& span_value(rest) == Err::<int, ParseErrorView>(
                ParseErrorView::Rejected(rejection_of(rest)),
            )
            &&& element_at(s, end) is Err
            &&& rejection_of(rest).position == element_at(s, end)->Err_0.position - end
            &&& rejection_of(rest).expected == element_at(s, end)->Err_0.expected
        }),
{
    lemma_read_stops(s, 0);
    let end = read_from(s, 0).end;
    let rest = s.subrange(end, s.len() as int);
    lemma_element_in_tail(s, end, 0);
    lemma_read_stops(rest, 0);
}

/// The running total, where there is one, is what the elements are worth together.
pub proof fn lemma_running_total_is_total(elements: Seq<SpanElement>)
    ensures
        running_total(elements) is Some ==> running_total(elements) == Some(
            total_nanos(elements),
        ),
    decreases elements.len(),
{
    if elements.len() > 0 {
        lemma_running_total_is_total(elements.drop_last());
    }
}

/// The characters of a text, one by one.
pub fn chars_of(input: &str) -> (text: Vec<char>)
    ensures
        text@ == input@,
{
    let mut text: Vec<char> = Vec::new();
    for c in it: input.chars()
        invariant
            it.seq() == input@,
            text@ == it.seq().take(it.index() as int),
    {
        text.push(c);
    }
    text
}

/// Adds up what the elements are worth, from first to last, starting from
/// zero. Gives nothing where an element, or the total after an element, is
/// more than a duration can hold.
pub fn total_of(elements: &Vec<SpanElement>) -> (total: Option<Duration>)
    ensures
        match running_total(elements@) {
            Some(nanos) => total is Some && total.unwrap()@ == nanos && total.unwrap().wf(),
            None => total is None,
        },
{
    let mut total: Duration = Duration::zero();
    let mut i: usize = 0;
    while i < elements.len()
        invariant
            i <= elements@.len(),
            running_total(elements@.take(i as int)) == Some(total@),
        decreases elements@.len() - i,
    {
        let element: SpanElement = elements[i];
        proof {
            let upto = elements@.take(i as int + 1);
            assert(upto.drop_last() =~= elements@.take(i as int));
            assert(upto.last() == element);
            if running_total(upto) is None {
                lemma_overflow_stays(elements@, i as int + 1);
            }
        }
        let worth: Duration = match Duration::of(element.quantity, element.unit) {
            Some(worth) => worth,
            None => {
                return None;
            },
        };
        total = match total.checked_add(worth) {
            Some(sum) => sum,
            None => {
                return None;
            },
        };
        i = i + 1;
    }
    assert(elements@.take(i as int) =~= elements@);
    Some(total)
}

/// Once the running total has left the range, more elements do not bring it back.
pub proof fn lemma_overflow_stays(elements: Seq<SpanElement>, count: int)
    requires
        0 <= count <= elements.len(),
        running_total(elements.take(count)) is None,
    ensures
        running_total(elements) is None,
    decreases elements.len() - count,
{
    if count < elements.len() {
        let next = elements.take(count + 1);
        assert(next.drop_last() =~= elements.take(count));
        lemma_overflow_stays(elements, count + 1);
    } else {
        assert(elements.take(count) =~= elements);
    }
}

/// The elements at the start of a text, as the grammar read them.
#[derive(Debug, PartialEq, Eq)]
pub struct TimeSpanMatch {
    /// The elements, in the order in which they stand in the text.
    pub elements: Vec<SpanElement>,
    /// The position, in characters, behind the last element.
    pub end: usize,
}

/// The grammar of span expressions: an approximate superset of systemd's
/// time spans, with nanoseconds besides. A year is 365 days and a month is
/// 30 days.
pub struct SystemDStyleTimeParser;

impl SystemDStyleTimeParser {
    /// Reads as many elements as stand at the start of the text, one behind
    /// the other. Succeeds where there is at least one, whatever follows
    /// the last; says otherwise why the text does not start with an element.
    pub fn parse(input: &str) -> (result: Result<TimeSpanMatch, Rejection>)
        ensures
            match result {
                Ok(found) => found.elements@ == read_from(input@, 0).elements && found.end
                    == read_from(input@, 0).end && found.elements@.len() > 0 && 0 < found.end
                    <= input@.len(),
                Err(rejection) => read_from(input@, 0).elements.len() == 0 && rejection@
                    == rejection_of(input@),
            },
    {
        let text: Vec<char> = chars_of(input);
        let (elements, end, stop) = read_elements(&text);
        proof {
            lemma_read_stops(input@, 0);
        }
        if elements.len() == 0 {
            Err(stop)
        } else {
            Ok(TimeSpanMatch { elements, end })
        }
    }
}

/// Reads a span expression into a duration.
///
/// The whole text must be elements, one behind the other, with or without
/// white space between them. Where only a start of the text is, the rest is
/// read once more on its own, to say why it is rejected.
pub fn parse_time_span(input: &str) -> (result: Result<Duration, ParseError>)
    ensures
        match span_value(input@) {
            Ok(nanos) => result is Ok && result.unwrap()@ == nanos && result.unwrap().wf(),
            Err(error) => result is Err && result.unwrap_err()@ == error,
        },
    decreases input@.len(),
{
    let time_span: TimeSpanMatch = match SystemDStyleTimeParser::parse(input) {
        Ok(time_span) => time_span,
        Err(rejection) => {
            return Err(ParseError::Rejected(rejection));
        },
    };
    let end: usize = time_span.end;
    let length: usize = input.unicode_len();
    if end != length {
        let matched: &str = input.substring_char(0, end);
        let unmatched: &str = input.substring_char(end, length);
        proof {
            lemma_rest_is_rejected(input@);
        }
        let cause: Rejection = match parse_time_span(unmatched) {
            Err(ParseError::Rejected(cause)) => cause,
            _ => {
                proof {
                    assert(false);
                }
                vstd::pervasive::unreached()
            },
        };
        return Err(
            ParseError::Partial {
                matched: String::from_str(matched),
                unmatched: String::from_str(unmatched),
                cause,
            },
        );
    }
    match total_of(&time_span.elements) {
        Some(total) => Ok(total),
        None => Err(ParseError::Overflow),
    }
}

} // verus!
