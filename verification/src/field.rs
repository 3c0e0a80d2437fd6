//! The grammar of one schedule field and its parser.
//!
//! A field is a list of terms separated by commas; empty terms are skipped.
//! A term is `*`, `start/step`, `a-b`, or a single value. The bounds of a
//! range and a single value may be weekday names.

use vstd::prelude::*;
use vstd::arithmetic::div_mod::{lemma_fundamental_div_mod, lemma_fundamental_div_mod_converse};
use crate::constraint::{FieldConstraint, FIELD_BITS};
use crate::error::ParseError;
use crate::text::{chars_of, find, parse_decimal, position, read_decimal};
use crate::weekday::{weekday_in, weekday_named};

verus! {

/// Every integer from `lo` to `hi`, both included.
pub open spec fn span(lo: int, hi: int) -> Set<int> {
    Set::new(|v: int| lo <= v <= hi)
}

/// Whether `v` is a whole number of steps away from `start`.
pub open spec fn on_step(v: int, start: int, step: int) -> bool {
    (v - start) % step == 0
}

/// `start`, `start + step`, `start + 2 * step`, and so on, up to `max`.
pub open spec fn progression(start: int, step: int, max: int) -> Set<int> {
    Set::new(|v: int| start <= v <= max && on_step(v, start, step))
}

/// The token read as an integer.
pub open spec fn number_of(token: Seq<char>) -> Result<int, ParseError> {
    match parse_decimal(token) {
        Ok(n) => Ok(n as int),
        Err(kind) => Err(ParseError::ParseIntError(kind)),
    }
}

/// The token read as a weekday name or, failing that, as an integer.
pub open spec fn bound_of(token: Seq<char>) -> Result<int, ParseError> {
    match weekday_named(token) {
        Some(day) => Ok(day.number()),
        None => number_of(token),
    }
}

/// The values of a term `start/step`.
pub open spec fn step_values(term: Seq<char>, min: int, max: int) -> Result<Set<int>, ParseError> {
    let cut = position(term, '/');
    let head = term.take(cut);
    let tail = term.skip(cut + 1);
    if position(tail, '/') < tail.len() {
        Err(ParseError::InvalidValue)
    } else {
        match number_of(head) {
            Err(e) => Err(e),
            Ok(start) => if start < min {
                Err(ParseError::InvalidValue)
            } else {
                match number_of(tail) {
                    Err(e) => Err(e),
                    Ok(step) => if step == 0 {
                        Err(ParseError::InvalidValue)
                    } else {
                        Ok(progression(start, step, max))
                    },
                }
            },
        }
    }
}

/// The values of a term `a-b`.
pub open spec fn range_values(term: Seq<char>, max: int) -> Result<Set<int>, ParseError> {
    let cut = position(term, '-');
    let head = term.take(cut);
    let tail = term.skip(cut + 1);
    if position(tail, '-') < tail.len() {
        Err(ParseError::InvalidRange)
    } else {
        match bound_of(head) {
            Err(e) => Err(e),
            Ok(a) => match bound_of(tail) {
                Err(e) => Err(e),
                Ok(b) => if a > b || b > max {
                    Err(ParseError::InvalidRange)
                } else {
                    Ok(span(a, b))
                },
            },
        }
    }
}

/// The value of a term that is a single token. A weekday name is taken as it
/// is; an integer must not exceed `max`.
pub open spec fn single_value(term: Seq<char>, max: int) -> Result<Set<int>, ParseError> {
    match weekday_named(term) {
        Some(day) => Ok(set![day.number()]),
        None => match number_of(term) {
            Err(e) => Err(e),
            Ok(n) => if n > max {
                Err(ParseError::InvalidValue)
            } else {
                Ok(set![n])
            },
        },
    }
}

/// The values that one non-empty term stands for.
pub open spec fn term_values(term: Seq<char>, min: int, max: int) -> Result<Set<int>, ParseError> {
    if term =~= seq!['*'] {
        Ok(span(min, max))
    } else if position(term, '/') < term.len() {
        step_values(term, min, max)
    } else if position(term, '-') < term.len() {
        range_values(term, max)
    } else {
        single_value(term, max)
    }
}

/// `first` joined with what follows it: the union of both, or the first error.
pub open spec fn joined(
    first: Result<Set<int>, ParseError>,
    rest: Result<Set<int>, ParseError>,
) -> Result<Set<int>, ParseError> {
    match first {
        Err(e) => Err(e),
        Ok(s) => match rest {
            Err(e) => Err(e),
            Ok(t) => Ok(s.union(t)),
        },
    }
}

/// The values of the term at the head of a field; an empty term has none.
pub open spec fn head_values(term: Seq<char>, min: int, max: int) -> Result<Set<int>, ParseError> {
    if term.len() == 0 {
        Ok(Set::empty())
    } else {
        term_values(term, min, max)
    }
}

/// The values that a whole field stands for: the union of the values of its
/// terms, or the error of the first term that has one.
pub open spec fn field_values(text: Seq<char>, min: int, max: int) -> Result<Set<int>, ParseError>
    decreases text.len(),
{
    let cut = position(text, ',');
    let head = head_values(text.take(cut), min, max);
    if 0 <= cut < text.len() {
        joined(head, field_values(text.skip(cut + 1), min, max))
    } else {
        head
    }
}

/// Adding a gap smaller than `step` to a multiple of `step` gives no multiple.
proof fn lemma_between_multiples(a: int, r: int, step: int)
    requires
        0 <= a,
        a % step == 0,
        0 < r < step,
    ensures
        (a + r) % step != 0,
{
    lemma_fundamental_div_mod(a, step);
    let q = a / step;
    assert(a + r == step * q + r);
    lemma_fundamental_div_mod_converse(a + r, step, q, r);
}

/// Adding `step` to a multiple of `step` gives a multiple.
proof fn lemma_next_multiple(a: int, step: int)
    requires
        0 <= a,
        0 < step,
        a % step == 0,
    ensures
        (a + step) % step == 0,
{
    lemma_fundamental_div_mod(a, step);
    let q = a / step;
    assert(a + step == step * (q + 1) + 0) by (nonlinear_arith)
        requires
            a == step * q + a % step,
            a % step == 0,
    ;
    lemma_fundamental_div_mod_converse(a + step, step, q + 1, 0);
}

/// Adds every integer from `lo` to `hi` to `c`.
fn add_span(c: &mut FieldConstraint, lo: usize, hi: usize)
    requires
        hi < FIELD_BITS,
    ensures
        final(c)@ == old(c)@.union(span(lo as int, hi as int)),
{
    let ghost before = c@;
    let mut i: usize = lo;
    proof {
        assert(c@ =~= before.union(Set::new(|v: int| lo <= v < i)));
    }
    while i <= hi
        invariant
            lo <= i,
            i == lo || i <= hi + 1,
            hi < FIELD_BITS,
            c@ == before.union(Set::new(|v: int| lo <= v < i)),
        decreases hi + 1 - i,
    {
        c.set(i);
        proof {
            assert(c@ =~= before.union(Set::new(|v: int| lo <= v < i + 1)));
        }
        i += 1;
    }
    proof {
        assert(c@ =~= before.union(span(lo as int, hi as int)));
    }
}

/// Adds `start`, `start + step`, ... up to `max` to `c`.
fn add_progression(c: &mut FieldConstraint, start: usize, step: usize, max: usize)
    requires
        max < FIELD_BITS,
        step > 0,
    ensures
        final(c)@ == old(c)@.union(progression(start as int, step as int, max as int)),
{
    let ghost before = c@;
    let mut i: usize = start;
    proof {
        assert(0int % (step as int) == 0) by (nonlinear_arith)
            requires
                step > 0,
        ;
        assert(c@ =~= before.union(progression(start as int, step as int, i - 1)));
    }
    while i <= max
        invariant
            start <= i,
            max < FIELD_BITS,
            step > 0,
            i <= max ==> on_step(i as int, start as int, step as int),
            c@ == before.union(
                progression(
                    start as int,
                    step as int,
                    if i - 1 < max {
                        i - 1
                    } else {
                        max as int
                    },
                ),
            ),
        decreases max + 1 - i,
    {
        c.set(i);
        if step > max - i {
            proof {
                assert forall|v: int| i < v <= max implies !on_step(v, start as int, step as int) by {
                    lemma_between_multiples(i - start, v - i, step as int);
                }
                assert(c@ =~= before.union(progression(start as int, step as int, max as int)));
            }
            i = max + 1;
        } else {
            proof {
                assert forall|v: int| i < v < i + step implies !on_step(
                    v,
                    start as int,
                    step as int,
                ) by {
                    lemma_between_multiples(i - start, v - i, step as int);
                }
                lemma_next_multiple(i - start, step as int);
                let reach = if i + step - 1 < max {
                    i + step - 1
                } else {
                    max as int
                };
                assert(c@ =~= before.union(progression(start as int, step as int, reach)));
            }
            i += step;
        }
    }
    proof {
        assert(c@ =~= before.union(progression(start as int, step as int, max as int)));
    }
}

/// Reads `v[from..to]` as an integer.
fn read_number(v: &Vec<char>, from: usize, to: usize) -> (r: Result<usize, ParseError>)
    requires
        from <= to <= v.len(),
    ensures
        match number_of(v@.subrange(from as int, to as int)) {
            Ok(n) => r == Ok::<usize, ParseError>(n as usize) && n <= usize::MAX,
            Err(e) => r == Err::<usize, ParseError>(e),
        },
{
    match read_decimal(v, from, to) {
        Ok(n) => Ok(n),
        Err(kind) => Err(ParseError::ParseIntError(kind)),
    }
}

/// Reads `v[from..to]` as a weekday name or, failing that, as an integer.
fn read_bound(v: &Vec<char>, from: usize, to: usize) -> (r: Result<usize, ParseError>)
    requires
        from <= to <= v.len(),
    ensures
        match bound_of(v@.subrange(from as int, to as int)) {
            Ok(n) => r == Ok::<usize, ParseError>(n as usize) && 0 <= n <= usize::MAX,
            Err(e) => r == Err::<usize, ParseError>(e),
        },
{
    match weekday_in(v, from, to) {
        Some(day) => Ok(day.index()),
        None => read_number(v, from, to),
    }
}

/// Adds the values of the term `v[from..to]` to `c`.
fn add_term(
    c: &mut FieldConstraint,
    v: &Vec<char>,
    from: usize,
    to: usize,
    min: usize,
    max: usize,
) -> (r: Result<(), ParseError>)
    requires
        from < to <= v.len(),
        max < FIELD_BITS,
    ensures
        match term_values(v@.subrange(from as int, to as int), min as int, max as int) {
            Ok(s) => r is Ok && final(c)@ == old(c)@.union(s),
            Err(e) => r == Err::<(), ParseError>(e),
        },
{
    let ghost term = v@.subrange(from as int, to as int);
    if to - from == 1 && v[from] == '*' {
        proof {
            assert(term =~= seq!['*']);
        }
        add_span(c, min, max);
        return Ok(());
    }
    proof {
        if term =~= seq!['*'] {
            assert(term[0] == '*');
        }
    }
    let slash = find(v, from, to, '/');
    if slash < to {
        let ghost head = v@.subrange(from as int, slash as int);
        let ghost tail = v@.subrange(slash + 1, to as int);
        proof {
            assert(head =~= term.take(slash - from));
            assert(tail =~= term.skip(slash - from + 1));
        }
        let second = find(v, slash + 1, to, '/');
        if second < to {
            return Err(ParseError::InvalidValue);
        }
        let start = read_number(v, from, slash)?;
        if start < min {
            return Err(ParseError::InvalidValue);
        }
        let step = read_number(v, slash + 1, to)?;
        if step == 0 {
            return Err(ParseError::InvalidValue);
        }
        add_progression(c, start, step, max);
        return Ok(());
    }
    let dash = find(v, from, to, '-');
    if dash < to {
        let ghost head = v@.subrange(from as int, dash as int);
        let ghost tail = v@.subrange(dash + 1, to as int);
        proof {
            assert(head =~= term.take(dash - from));
            assert(tail =~= term.skip(dash - from + 1));
        }
        let second = find(v, dash + 1, to, '-');
        if second < to {
            return Err(ParseError::InvalidRange);
        }
        let a = read_bound(v, from, dash)?;
        let b = read_bound(v, dash + 1, to)?;
        if a > b || b > max {
            return Err(ParseError::InvalidRange);
        }
        add_span(c, a, b);
        return Ok(());
    }
    match weekday_in(v, from, to) {
        Some(day) => {
            let ghost before = c@;
            c.set(day.index());
            proof {
                assert(c@ =~= before.union(set![day.number()]));
            }
            Ok(())
        },
        None => {
            let n = read_number(v, from, to)?;
            if n > max {
                return Err(ParseError::InvalidValue);
            }
            let ghost before = c@;
            c.set(n);
            proof {
                assert(c@ =~= before.union(set![n as int]));
            }
            Ok(())
        },
    }
}

/// Parses one field into the set of values it allows.
///
/// `min` and `max` bound the field: `*` stands for every value between them,
/// a step sequence starts at `min` or later and ends at `max`, and a range or
/// an integer must not exceed `max`.
pub fn parse_field(field: &str, min: usize, max: usize) -> (r: Result<FieldConstraint, ParseError>)
    requires
        max < FIELD_BITS,
    ensures
        match field_values(field@, min as int, max as int) {
            Ok(s) => r matches Ok(c) && c@ == s,
            Err(e) => r matches Err(f) && f == e,
        },
{
    let v = chars_of(field);
    let n = v.len();
    let mut c = FieldConstraint::empty();
    let mut pos: usize = 0;
    proof {
        assert(v@.skip(0) =~= v@);
        let whole = field_values(v@, min as int, max as int);
        assert(joined(Ok(c@), whole) == whole) by {
            if let Ok(s) = whole {
                assert(c@.union(s) =~= s);
            }
        }
    }
    loop
        invariant
            v@ == field@,
            n == v.len(),
            pos <= n,
            max < FIELD_BITS,
            field_values(field@, min as int, max as int) == joined(
                Ok(c@),
                field_values(v@.skip(pos as int), min as int, max as int),
            ),
        decreases n - pos,
    {
        let ghost rest = v@.skip(pos as int);
        let ghost before = c@;
        let end = find(&v, pos, n, ',');
        proof {
            assert(v@.subrange(pos as int, n as int) =~= rest);
            assert(v@.subrange(pos as int, end as int) =~= rest.take(end - pos));
            if end < n {
                assert(v@.skip(end + 1) =~= rest.skip(end - pos + 1));
            }
        }
        if end > pos {
            add_term(&mut c, &v, pos, end, min, max)?;
        } else {
            proof {
                assert(c@.union(Set::empty()) =~= c@);
            }
        }
        if end == n {
            return Ok(c);
        }
        proof {
            let tail = field_values(v@.skip(end + 1), min as int, max as int);
            let head = head_values(rest.take(end - pos), min as int, max as int);
            assert(joined(Ok(before), joined(head, tail)) == joined(Ok(c@), tail)) by {
                if let Ok(t) = tail {
                    assert(before.union(head->Ok_0.union(t)) =~= c@.union(t));
                }
            }
        }
        pos = end + 1;
    }
}

} // verus!
