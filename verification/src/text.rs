//! Character-level helpers shared by the field grammar: reading the characters
//! of a string, finding a separator, and reading an unsigned decimal integer.

use vstd::prelude::*;
use crate::error::IntErrorKind;

verus! {

/// The characters of `s`, in order.
pub fn chars_of(s: &str) -> (v: Vec<char>)
    ensures
        v@ == s@,
{
    let mut v: Vec<char> = Vec::new();
    for c in it: s.chars()
        invariant
            v@ == it.seq().take(it.index() as int),
            it.seq() == s@,
    {
        v.push(c);
    }
    v
}

/// Index of the first occurrence of `c` in `s`, or `s.len()` if there is none.
pub open spec fn position(s: Seq<char>, c: char) -> int
    decreases s.len(),
{
    if s.len() == 0 || s[0] == c {
        0
    } else {
        1 + position(s.skip(1), c)
    }
}

/// `position` is the least index that holds `c`, and is `s.len()` exactly when
/// `c` does not occur.
pub proof fn lemma_position(s: Seq<char>, c: char)
    ensures
        0 <= position(s, c) <= s.len(),
        forall|j: int| 0 <= j < position(s, c) ==> s[j] != c,
        position(s, c) < s.len() ==> s[position(s, c)] == c,
    decreases s.len(),
{
    if s.len() == 0 || s[0] == c {
    } else {
        let rest = s.skip(1);
        lemma_position(rest, c);
        assert forall|j: int| 0 <= j < position(s, c) implies s[j] != c by {
            if j > 0 {
                assert(rest[j - 1] == s[j]);
            }
        }
        if position(s, c) < s.len() {
            assert(rest[position(rest, c)] == s[position(s, c)]);
        }
    }
}

/// An index `i` that holds `c`, or is the length, with no `c` before it, is
/// `position(s, c)`.
pub proof fn lemma_position_unique(s: Seq<char>, c: char, i: int)
    requires
        0 <= i <= s.len(),
        forall|j: int| 0 <= j < i ==> s[j] != c,
        i < s.len() ==> s[i] == c,
    ensures
        position(s, c) == i,
{
    lemma_position(s, c);
    let p = position(s, c);
    if p < i {
        assert(s[p] == c);
    } else if i < p {
        assert(s[i] != c);
    }
}

/// Finds the first `c` in `v[from..to]`: the returned index is
/// `from + position(..)` of that stretch.
pub fn find(v: &Vec<char>, from: usize, to: usize, c: char) -> (i: usize)
    requires
        from <= to <= v.len(),
    ensures
        from <= i <= to,
        i - from == position(v@.subrange(from as int, to as int), c),
{
    let ghost s = v@.subrange(from as int, to as int);
    let mut i: usize = from;
    while i < to && v[i] != c
        invariant
            from <= i <= to <= v.len(),
            s == v@.subrange(from as int, to as int),
            forall|j: int| 0 <= j < i - from ==> s[j] != c,
        decreases to - i,
    {
        i += 1;
    }
    proof {
        lemma_position_unique(s, c, i - from);
    }
    i
}

/// Whether `c` is one of `0` to `9`.
pub open spec fn is_digit(c: char) -> bool {
    '0' <= c <= '9'
}

/// The number that the digit `c` stands for.
pub open spec fn digit_value(c: char) -> int {
    c as int - '0' as int
}

/// Length of the longest prefix of `s` made of digits only.
pub open spec fn digit_prefix_len(s: Seq<char>) -> int
    decreases s.len(),
{
    if s.len() > 0 && is_digit(s[0]) {
        1 + digit_prefix_len(s.skip(1))
    } else {
        0
    }
}

/// The number written by the digits of `s` in base ten; the empty text
/// counts as zero.
pub open spec fn digits_value(s: Seq<char>) -> int
    decreases s.len(),
{
    if s.len() == 0 {
        0
    } else {
        digits_value(s.drop_last()) * 10 + digit_value(s.last())
    }
}

/// What reading `s` as an unsigned decimal integer gives.
///
/// One leading `+` is allowed. The digits are read from the left: the first
/// character that is no digit gives `InvalidDigit`, unless the digits before
/// it already exceed `usize::MAX`, which gives `PosOverflow`.
pub open spec fn parse_decimal(s: Seq<char>) -> Result<usize, IntErrorKind> {
    if s.len() == 0 {
        Err(IntErrorKind::Empty)
    } else {
        let body = if s[0] == '+' { s.skip(1) } else { s };
        let k = digit_prefix_len(body);
        if body.len() == 0 {
            Err(IntErrorKind::InvalidDigit)
        } else if digits_value(body.take(k)) > usize::MAX {
            Err(IntErrorKind::PosOverflow)
        } else if k < body.len() {
            Err(IntErrorKind::InvalidDigit)
        } else {
            Ok(digits_value(body) as usize)
        }
    }
}

/// Every character before `digit_prefix_len` is a digit, and the one at it,
/// if there is one, is not.
pub proof fn lemma_digit_prefix_bounds(s: Seq<char>)
    ensures
        0 <= digit_prefix_len(s) <= s.len(),
        forall|j: int| 0 <= j < digit_prefix_len(s) ==> is_digit(s[j]),
        digit_prefix_len(s) < s.len() ==> !is_digit(s[digit_prefix_len(s)]),
    decreases s.len(),
{
    if s.len() > 0 && is_digit(s[0]) {
        let rest = s.skip(1);
        lemma_digit_prefix_bounds(rest);
        assert forall|j: int| 0 <= j < digit_prefix_len(s) implies is_digit(s[j]) by {
            if j > 0 {
                assert(rest[j - 1] == s[j]);
            }
        }
        if digit_prefix_len(s) < s.len() {
            assert(rest[digit_prefix_len(rest)] == s[digit_prefix_len(s)]);
        }
    }
}

/// An index with only digits before it and no digit at it is `digit_prefix_len`.
pub proof fn lemma_digit_prefix(s: Seq<char>, i: int)
    requires
        0 <= i <= s.len(),
        forall|j: int| 0 <= j < i ==> is_digit(s[j]),
        i < s.len() ==> !is_digit(s[i]),
    ensures
        digit_prefix_len(s) == i,
    decreases s.len(),
{
    if i > 0 {
        let rest = s.skip(1);
        assert(is_digit(s[0]));
        assert forall|j: int| 0 <= j < i - 1 implies is_digit(rest[j]) by {
            assert(rest[j] == s[j + 1]);
        }
        if i < s.len() {
            assert(rest[i - 1] == s[i]);
        }
        lemma_digit_prefix(rest, i - 1);
    }
}

/// A run of digits never writes a negative number.
pub proof fn lemma_digits_value_nonneg(s: Seq<char>, i: int)
    requires
        0 <= i <= s.len(),
        forall|j: int| 0 <= j < i ==> is_digit(s[j]),
    ensures
        0 <= digits_value(s.take(i)),
    decreases i,
{
    if i > 0 {
        lemma_digits_value_nonneg(s, i - 1);
        assert(s.take(i).drop_last() =~= s.take(i - 1));
        assert(s.take(i).last() == s[i - 1]);
        assert(is_digit(s[i - 1]));
    }
}

/// Reading more digits never gives a smaller number.
pub proof fn lemma_digits_value_grows(s: Seq<char>, i: int, k: int)
    requires
        0 <= i <= k <= s.len(),
        forall|j: int| 0 <= j < k ==> is_digit(s[j]),
    ensures
        0 <= digits_value(s.take(i)) <= digits_value(s.take(k)),
    decreases k - i,
{
    lemma_digits_value_nonneg(s, i);
    if i < k {
        lemma_digits_value_grows(s, i + 1, k);
        assert(s.take(i + 1).drop_last() =~= s.take(i));
        assert(s.take(i + 1).last() == s[i]);
        assert(is_digit(s[i]));
    }
}

/// Reads `v[from..to]` as an unsigned decimal integer.
pub fn read_decimal(v: &Vec<char>, from: usize, to: usize) -> (r: Result<usize, IntErrorKind>)
    requires
        from <= to <= v.len(),
    ensures
        r == parse_decimal(v@.subrange(from as int, to as int)),
{
    let ghost s = v@.subrange(from as int, to as int);
    if from == to {
        return Err(IntErrorKind::Empty);
    }
    let start: usize = if v[from] == '+' { from + 1 } else { from };
    let ghost body = v@.subrange(start as int, to as int);
    proof {
        if s[0] == '+' {
            assert(body =~= s.skip(1));
        } else {
            assert(body =~= s);
        }
    }
    if start == to {
        return Err(IntErrorKind::InvalidDigit);
    }
    let mut acc: usize = 0;
    let mut i: usize = start;
    proof {
        assert(body.take(0).len() == 0);
    }
    while i < to
        invariant
            start <= i <= to <= v.len(),
            s == v@.subrange(from as int, to as int),
            body == v@.subrange(start as int, to as int),
            s.len() > 0,
            body.len() > 0,
            body == (if s[0] == '+' { s.skip(1) } else { s }),
            forall|j: int| 0 <= j < i - start ==> is_digit(body[j]),
            acc == digits_value(body.take(i - start)),
        decreases to - i,
    {
        let c: char = v[i];
        let ghost n = i - start;
        if !(c >= '0' && c <= '9') {
            proof {
                lemma_digit_prefix(body, n);
            }
            return Err(IntErrorKind::InvalidDigit);
        }
        let d: usize = (c as u32 - '0' as u32) as usize;
        proof {
            assert(body.take(n + 1).drop_last() =~= body.take(n));
            assert(body.take(n + 1).last() == c);
            assert(digits_value(body.take(n + 1)) == acc * 10 + d);
        }
        if acc > (usize::MAX - d) / 10 {
            proof {
                // The digits up to here already overflow; those that follow
                // can only add to them.
                let k = digit_prefix_len(body);
                lemma_digit_prefix_bounds(body);
                if k < n + 1 {
                    assert(is_digit(body[k]));
                }
                lemma_digits_value_grows(body, n + 1, k);
            }
            return Err(IntErrorKind::PosOverflow);
        }
        acc = acc * 10 + d;
        i += 1;
    }
    proof {
        lemma_digit_prefix(body, body.len() as int);
        assert(body.take(body.len() as int) =~= body);
    }
    Ok(acc)
}

} // verus!
