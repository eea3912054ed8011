//! What holds of reading and display together.
use crate::grammar::{read_from, SpanElement};
use crate::span::{element_nanos, lemma_running_total_is_total, span_value, total_nanos};
use vstd::prelude::*;
use vstd::seq_lib::{to_multiset_contains, to_multiset_len, to_multiset_remove};

verus! {

/// Taking one element out of a sequence takes what it is worth out of the total.
pub proof fn lemma_total_without(elements: Seq<SpanElement>, i: int)
    requires
        0 <= i < elements.len(),
    ensures
        total_nanos(elements) == total_nanos(elements.remove(i)) + element_nanos(elements[i]),
    decreases elements.len(),
{
    if i == elements.len() - 1 {
        assert(elements.remove(i) =~= elements.drop_last());
    } else {
        lemma_total_without(elements.drop_last(), i);
        assert(elements.drop_last().remove(i) =~= elements.remove(i).drop_last());
        assert(elements.remove(i).last() == elements.last());
    }
}

/// Elements are worth the same together in whatever order they stand.
pub proof fn lemma_total_ignores_order(first: Seq<SpanElement>, second: Seq<SpanElement>)
    requires
        first.to_multiset() == second.to_multiset(),
    ensures
        total_nanos(first) == total_nanos(second),
    decreases first.len(),
{
    to_multiset_len(first);
    to_multiset_len(second);
    if first.len() > 0 {
        let last = first.last();
        let rest = first.drop_last();
        assert(first.contains(last));
        to_multiset_contains(first, last);
        to_multiset_contains(second, last);
        let i = choose|i: int| 0 <= i < second.len() && second[i] == last;
        assert(rest =~= first.remove(first.len() - 1));
        to_multiset_remove(first, first.len() - 1);
        to_multiset_remove(second, i);
        lemma_total_ignores_order(rest, second.remove(i));
        lemma_total_without(second, i);
    }
}

/// Two span expressions that hold the same elements, in whatever order, and
/// that can both be read into a duration, are read into the same duration.
pub proof fn lemma_order_is_insignificant(first: Seq<char>, second: Seq<char>)
    requires
        span_value(first) is Ok,
        span_value(second) is Ok,
        read_from(first, 0).elements.to_multiset() == read_from(second, 0).elements.to_multiset(),
    ensures
        span_value(first) == span_value(second),
{
    let a = read_from(first, 0).elements;
    let b = read_from(second, 0).elements;
    lemma_running_total_is_total(a);
    lemma_running_total_is_total(b);
    lemma_total_ignores_order(a, b);
}

} // verus!
