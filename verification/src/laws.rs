//! Laws of the field grammar and of the search, each stated over the
//! functions that the contracts of the parser and of the search use.

use vstd::prelude::*;
use vstd::arithmetic::div_mod::{lemma_fundamental_div_mod, lemma_fundamental_div_mod_converse};
use crate::calendar::CivilTime;
use crate::error::ParseError;
use crate::field::{
    bound_of, field_values, head_values, joined, number_of, on_step, progression, span,
    term_values,
};
use crate::search::{
    lemma_advance, lemma_search_end, next_occurrence, satisfies, Allowed, Unit,
    LAST_REFERENCE_YEAR,
};
use crate::text::{
    is_digit, lemma_digit_prefix_bounds, lemma_position, lemma_position_unique, position,
};
use crate::weekday::weekday_named;

verus! {

/// Whether `c` is one of the marks of the grammar: `,`, `/`, `-` or `*`.
pub open spec fn is_mark(c: char) -> bool {
    c == ',' || c == '/' || c == '-' || c == '*'
}

/// Whether `s` holds none of the marks of the grammar.
pub open spec fn plain(s: Seq<char>) -> bool {
    forall|i: int| 0 <= i < s.len() ==> !is_mark(#[trigger] s[i])
}

/// A token that reads as an integer is not empty and holds no mark.
pub proof fn lemma_bound_is_plain_number(token: Seq<char>)
    requires
        number_of(token) is Ok,
    ensures
        plain(token),
        token.len() > 0,
        weekday_named(token) is None,
        bound_of(token) == number_of(token),
{
    let body = if token[0] == '+' {
        token.skip(1)
    } else {
        token
    };
    lemma_digit_prefix_bounds(body);
    assert(is_digit(body[0]));
    assert forall|i: int| 0 <= i < token.len() implies !is_mark(#[trigger] token[i]) by {
        if token[0] == '+' {
            if i > 0 {
                assert(body[i - 1] == token[i]);
                assert(is_digit(body[i - 1]));
            }
        } else {
            assert(is_digit(body[i]));
        }
    }
    if token[0] != '+' {
        assert(is_digit(token[0]));
    }
}

/// A token that reads as an integer or as a weekday name is not empty and
/// holds no mark of the grammar.
pub proof fn lemma_bound_is_plain(token: Seq<char>)
    requires
        bound_of(token) is Ok,
    ensures
        plain(token),
        token.len() > 0,
{
    if weekday_named(token) is None {
        lemma_bound_is_plain_number(token);
    }
}

/// In `a + b`, the first `c` is that of `a` if `a` holds one, else that of `b`.
pub proof fn lemma_position_concat(a: Seq<char>, b: Seq<char>, c: char)
    ensures
        position(a + b, c) == if position(a, c) < a.len() {
            position(a, c)
        } else {
            a.len() + position(b, c)
        },
{
    lemma_position(a, c);
    lemma_position(b, c);
    let p = position(a, c);
    if p < a.len() {
        assert forall|j: int| 0 <= j < p implies (a + b)[j] != c by {
            assert((a + b)[j] == a[j]);
        }
        assert((a + b)[p] == a[p]);
        lemma_position_unique(a + b, c, p);
    } else {
        let q = a.len() + position(b, c);
        assert forall|j: int| 0 <= j < q implies (a + b)[j] != c by {
            if j < a.len() {
                assert((a + b)[j] == a[j]);
            } else {
                assert((a + b)[j] == b[j - a.len()]);
            }
        }
        if q < (a + b).len() {
            assert((a + b)[q] == b[q - a.len()]);
        }
        lemma_position_unique(a + b, c, q);
    }
}

/// The position of a mark in a text that holds none is the text's length.
pub proof fn lemma_plain_position(s: Seq<char>, c: char)
    requires
        plain(s),
        is_mark(c),
    ensures
        position(s, c) == s.len(),
{
    lemma_position_unique(s, c, s.len() as int);
}

/// A field that is `*` alone allows every value from `min` to `max`, and
/// nothing else.
pub proof fn law_star(min: int, max: int)
    ensures
        field_values(seq!['*'], min, max) == Ok::<Set<int>, ParseError>(span(min, max)),
        forall|v: int| span(min, max).contains(v) <==> min <= v <= max,
{
    let text = seq!['*'];
    lemma_position_unique(text, ',', 1);
    assert(text.take(1) =~= text);
}

/// A field made of a single term without a comma has that term's values.
pub proof fn law_single_term(term: Seq<char>, min: int, max: int)
    requires
        term.len() > 0,
        position(term, ',') == term.len(),
    ensures
        field_values(term, min, max) == term_values(term, min, max),
{
    assert(term.take(term.len() as int) =~= term);
}

/// Joining is associative.
pub proof fn lemma_joined_assoc(
    x: Result<Set<int>, ParseError>,
    y: Result<Set<int>, ParseError>,
    z: Result<Set<int>, ParseError>,
)
    ensures
        joined(x, joined(y, z)) == joined(joined(x, y), z),
{
    if let (Ok(a), Ok(b), Ok(c)) = (x, y, z) {
        assert(a.union(b.union(c)) =~= a.union(b).union(c));
    }
}

/// Two fields written one after the other with a comma between them allow
/// the union of what each allows; if one of them has an error, the first
/// error is that of the whole. A value named twice is a member once.
pub proof fn law_union(a: Seq<char>, b: Seq<char>, min: int, max: int)
    ensures
        field_values(a + seq![','] + b, min, max) == joined(
            field_values(a, min, max),
            field_values(b, min, max),
        ),
    decreases a.len(),
{
    let text = a + seq![','] + b;
    let tail = seq![','] + b;
    assert(text =~= a + tail);
    lemma_position(a, ',');
    lemma_position_unique(tail, ',', 0);
    lemma_position_concat(a, tail, ',');
    let p = position(a, ',');
    if p < a.len() {
        let rest = a.skip(p + 1);
        assert(text.take(p) =~= a.take(p));
        assert(text.skip(p + 1) =~= rest + seq![','] + b);
        law_union(rest, b, min, max);
        lemma_joined_assoc(
            head_values(a.take(p), min, max),
            field_values(rest, min, max),
            field_values(b, min, max),
        );
    } else {
        assert(text.take(p) =~= a.take(p));
        assert(text.skip(p + 1) =~= b);
    }
}

/// The values that a field with the single term `start/step` allows, where
/// `head` and `tail` read as the integers `start` and `step`: an error if
/// `start` lies below `min` or `step` is zero; else the values
/// `start + k * step` that do not exceed `max`, and nothing else.
pub proof fn law_step(head: Seq<char>, tail: Seq<char>, min: int, max: int)
    requires
        number_of(head) is Ok,
        number_of(tail) is Ok,
    ensures
        ({
            let start = number_of(head)->Ok_0;
            let step = number_of(tail)->Ok_0;
            let got = field_values(head + seq!['/'] + tail, min, max);
            &&& start < min || step == 0 ==> got == Err::<Set<int>, ParseError>(
                ParseError::InvalidValue,
            )
            &&& start >= min && step > 0 ==> {
                &&& got is Ok
                &&& forall|k: nat|
                    start + k * step <= max ==> #[trigger] got->Ok_0.contains(start + k * step)
                &&& forall|v: int| #[trigger]
                    got->Ok_0.contains(v) ==> start <= v <= max && v == start + ((v - start)
                        / step) * step
            }
        }),
{
    let start = number_of(head)->Ok_0;
    let step = number_of(tail)->Ok_0;
    let term = head + seq!['/'] + tail;
    let back = seq!['/'] + tail;
    lemma_bound_is_plain_number(head);
    lemma_bound_is_plain_number(tail);
    assert(term =~= head + back);
    // No comma in the term: the field is this one term.
    assert forall|j: int| 0 <= j < term.len() implies term[j] != ',' by {
        if j < head.len() {
            assert(term[j] == head[j]);
        } else if j > head.len() {
            assert(term[j] == tail[j - head.len() - 1]);
        }
    }
    lemma_position_unique(term, ',', term.len() as int);
    law_single_term(term, min, max);
    // The one slash stands between the two tokens.
    lemma_plain_position(head, '/');
    lemma_position_unique(back, '/', 0);
    lemma_position_concat(head, back, '/');
    lemma_plain_position(tail, '/');
    assert(term.take(head.len() as int) =~= head);
    assert(term.skip(head.len() as int + 1) =~= tail);
    assert(term[head.len() as int] == '/');
    assert(!(term =~= seq!['*']));
    if start >= min && step > 0 {
        let got = progression(start, step, max);
        assert forall|k: nat| start + k * step <= max implies #[trigger] got.contains(
            start + k * step,
        ) by {
            assert(0 <= k * step) by (nonlinear_arith)
                requires
                    0 <= k,
                    0 < step,
            ;
            assert(k * step == step * k + 0) by (nonlinear_arith);
            lemma_fundamental_div_mod_converse(k * step, step, k as int, 0);
            assert(on_step(start + k * step, start, step));
        }
        assert forall|v: int| #[trigger] got.contains(v) implies start <= v <= max && v == start
            + ((v - start) / step) * step by {
            assert(on_step(v, start, step));
            lemma_fundamental_div_mod(v - start, step);
            assert(((v - start) / step) * step == step * ((v - start) / step))
                by (nonlinear_arith);
        }
    }
}

/// The values that a field with the single term `a-b` allows, where `head`
/// and `tail` each read as a weekday name or an integer: an error if the
/// range runs backwards or ends beyond `max`; else every integer from the
/// first bound to the second, and nothing else.
pub proof fn law_range(head: Seq<char>, tail: Seq<char>, min: int, max: int)
    requires
        bound_of(head) is Ok,
        bound_of(tail) is Ok,
    ensures
        ({
            let a = bound_of(head)->Ok_0;
            let b = bound_of(tail)->Ok_0;
            let got = field_values(head + seq!['-'] + tail, min, max);
            &&& a > b || b > max ==> got == Err::<Set<int>, ParseError>(ParseError::InvalidRange)
            &&& a <= b <= max ==> got is Ok && forall|v: int|
                got->Ok_0.contains(v) <==> a <= v <= b
        }),
{
    let term = head + seq!['-'] + tail;
    let back = seq!['-'] + tail;
    lemma_bound_is_plain(head);
    lemma_bound_is_plain(tail);
    assert(term =~= head + back);
    assert forall|j: int| 0 <= j < term.len() implies term[j] != ',' && term[j] != '/' by {
        if j < head.len() {
            assert(term[j] == head[j]);
        } else if j > head.len() {
            assert(term[j] == tail[j - head.len() - 1]);
        }
    }
    lemma_position_unique(term, ',', term.len() as int);
    lemma_position_unique(term, '/', term.len() as int);
    law_single_term(term, min, max);
    lemma_plain_position(head, '-');
    lemma_position_unique(back, '-', 0);
    lemma_position_concat(head, back, '-');
    lemma_plain_position(tail, '-');
    assert(term.take(head.len() as int) =~= head);
    assert(term.skip(head.len() as int + 1) =~= tail);
    assert(term[head.len() as int] == '-');
    assert(!(term =~= seq!['*']));
}

/// Whether `c` and `d` are the same character or the two cases of one of the
/// letters `A` to `Z`.
pub open spec fn same_ignoring_case(c: char, d: char) -> bool {
    ||| c == d
    ||| ('A' <= c <= 'Z' && d as int == c as int + 32)
    ||| ('A' <= d <= 'Z' && c as int == d as int + 32)
}

/// Which weekday a text names does not depend on the case of its letters.
pub proof fn law_weekday_ignores_case(s: Seq<char>, t: Seq<char>)
    requires
        s.len() == t.len(),
        forall|i: int| 0 <= i < s.len() ==> same_ignoring_case(s[i], t[i]),
    ensures
        weekday_named(s) == weekday_named(t),
{
    if s.len() == 3 {
        assert(same_ignoring_case(s[0], t[0]));
        assert(same_ignoring_case(s[1], t[1]));
        assert(same_ignoring_case(s[2], t[2]));
    }
}

/// Whether a term names a value outside `min` to `max`: a range that starts
/// below `min`, an integer below `min`, or a weekday whose number lies
/// outside. (No check of the grammar rejects these.)
pub open spec fn strays(term: Seq<char>, min: int, max: int) -> bool {
    if term =~= seq!['*'] || position(term, '/') < term.len() {
        false
    } else if position(term, '-') < term.len() {
        bound_of(term.take(position(term, '-'))) matches Ok(a) && a < min
    } else {
        match weekday_named(term) {
            Some(day) => !(min <= day.number() <= max),
            None => number_of(term) matches Ok(n) && n < min,
        }
    }
}

/// Whether some term of the field strays.
pub open spec fn some_term_strays(text: Seq<char>, min: int, max: int) -> bool
    decreases text.len(),
{
    let cut = position(text, ',');
    let head = text.take(cut);
    let here = head.len() > 0 && strays(head, min, max);
    if 0 <= cut < text.len() {
        here || some_term_strays(text.skip(cut + 1), min, max)
    } else {
        here
    }
}

/// The values of a term that parses and does not stray lie from `min` to
/// `max`; one that parses and strays has a value outside.
pub proof fn lemma_term_within_bounds(term: Seq<char>, min: int, max: int)
    requires
        term.len() > 0,
        term_values(term, min, max) is Ok,
    ensures
        !strays(term, min, max) ==> term_values(term, min, max)->Ok_0.subset_of(span(min, max)),
        strays(term, min, max) ==> exists|v: int|
            #[trigger] term_values(term, min, max)->Ok_0.contains(v) && !(min <= v <= max),
{
    let got = term_values(term, min, max)->Ok_0;
    if term =~= seq!['*'] || position(term, '/') < term.len() {
    } else if position(term, '-') < term.len() {
        let a = bound_of(term.take(position(term, '-')))->Ok_0;
        if a < min {
            assert(got.contains(a));
        }
    } else {
        match weekday_named(term) {
            Some(day) => {
                assert(got.contains(day.number()));
            },
            None => {
                let n = number_of(term)->Ok_0;
                assert(got.contains(n));
            },
        }
    }
}

/// Every value that a field allows lies from `min` to `max`, unless one of
/// its terms strays.
pub proof fn law_values_within_bounds(text: Seq<char>, min: int, max: int)
    requires
        field_values(text, min, max) is Ok,
        !some_term_strays(text, min, max),
    ensures
        forall|v: int| field_values(text, min, max)->Ok_0.contains(v) ==> min <= v <= max,
    decreases text.len(),
{
    lemma_position(text, ',');
    let cut = position(text, ',');
    let head = text.take(cut);
    if head.len() > 0 {
        lemma_term_within_bounds(head, min, max);
    }
    if cut < text.len() {
        law_values_within_bounds(text.skip(cut + 1), min, max);
    }
}

/// A field that parses and has a term that strays allows a value outside
/// `min` to `max`.
pub proof fn law_stray_value(text: Seq<char>, min: int, max: int)
    requires
        field_values(text, min, max) is Ok,
        some_term_strays(text, min, max),
    ensures
        exists|v: int| #[trigger]
            field_values(text, min, max)->Ok_0.contains(v) && !(min <= v <= max),
    decreases text.len(),
{
    lemma_position(text, ',');
    let cut = position(text, ',');
    let head = text.take(cut);
    let got = field_values(text, min, max)->Ok_0;
    if head.len() > 0 && strays(head, min, max) {
        lemma_term_within_bounds(head, min, max);
        let v = choose|v: int| #[trigger]
            term_values(head, min, max)->Ok_0.contains(v) && !(min <= v <= max);
        assert(got.contains(v));
    } else {
        let rest = text.skip(cut + 1);
        law_stray_value(rest, min, max);
        let v = choose|v: int| #[trigger]
            field_values(rest, min, max)->Ok_0.contains(v) && !(min <= v <= max);
        assert(got.contains(v));
    }
}

/// The time that a search finds lies after the reference time, and every
/// field of it holds an allowed value.
pub proof fn law_found_is_later(a: Allowed, reference: CivilTime, found: CivilTime)
    requires
        reference.valid(),
        reference.date.year <= LAST_REFERENCE_YEAR,
        next_occurrence(a, reference) == Some(found),
    ensures
        reference.before(found),
        found.valid(),
        satisfies(a, found),
{
    lemma_advance(reference, Unit::Second);
    lemma_search_end(a, reference.date.year, reference.advance(Unit::Second));
    lemma_before_chain(reference, reference.advance(Unit::Second), found);
}

/// "Earlier than" is transitive.
pub proof fn lemma_before_chain(r: CivilTime, s: CivilTime, t: CivilTime)
    requires
        r.before(s),
        s == t || s.before(t),
    ensures
        r.before(t),
{
}

/// Searching again from a found time finds a time that is later still, and
/// that matches the same schedule.
pub proof fn law_search_again(
    a: Allowed,
    reference: CivilTime,
    first: CivilTime,
    second: CivilTime,
)
    requires
        reference.valid(),
        reference.date.year <= LAST_REFERENCE_YEAR,
        first.date.year <= LAST_REFERENCE_YEAR,
        next_occurrence(a, reference) == Some(first),
        next_occurrence(a, first) == Some(second),
    ensures
        reference.before(first),
        first.before(second),
        satisfies(a, first),
        satisfies(a, second),
{
    law_found_is_later(a, reference, first);
    law_found_is_later(a, first, second);
}

/// A schedule that no time of the calendar matches has no next occurrence:
/// the search ends at the horizon.
pub proof fn law_unmatched_schedule(a: Allowed, reference: CivilTime)
    requires
        reference.valid(),
        reference.date.year <= LAST_REFERENCE_YEAR,
        forall|t: CivilTime| t.valid() ==> !satisfies(a, t),
    ensures
        next_occurrence(a, reference) is None,
{
    lemma_advance(reference, Unit::Second);
    lemma_search_end(a, reference.date.year, reference.advance(Unit::Second));
}

/// A schedule that allows only the 31st day and only February has no next
/// occurrence.
pub proof fn law_no_february_31(a: Allowed, reference: CivilTime)
    requires
        reference.valid(),
        reference.date.year <= LAST_REFERENCE_YEAR,
        a.month == set![2int],
        a.day_of_month == set![31int],
    ensures
        next_occurrence(a, reference) is None,
{
    law_unmatched_schedule(a, reference);
}

} // verus!
