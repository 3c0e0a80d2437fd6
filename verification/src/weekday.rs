//! Symbolic weekday names: `SUN` is 0, `SAT` is 6, in any letter case.

use vstd::prelude::*;
use crate::text::chars_of;

verus! {

/// A day of the week, counted from Sunday.
#[derive(Debug, Clone, Copy, PartialEq, Eq, Structural)]
pub enum Dow {
    Sun,
    Mon,
    Tue,
    Wed,
    Thu,
    Fri,
    Sat,
}

/// Whether `c` is the capital letter `upper` in either case. The long s and
/// the dotless i count as small forms of `S` and `I`.
pub open spec fn is_letter(c: char, upper: char) -> bool {
    ||| c == upper
    ||| c as int == upper as int + 32
    ||| (upper == 'S' && c == '\u{17f}')
    ||| (upper == 'I' && c == '\u{131}')
}

/// Whether `s` spells the three capital letters `a`, `b`, `c`, in any case.
pub open spec fn spells(s: Seq<char>, a: char, b: char, c: char) -> bool {
    &&& s.len() == 3
    &&& is_letter(s[0], a)
    &&& is_letter(s[1], b)
    &&& is_letter(s[2], c)
}

/// The weekday that `s` names, if it names one.
pub open spec fn weekday_named(s: Seq<char>) -> Option<Dow> {
    if spells(s, 'S', 'U', 'N') {
        Some(Dow::Sun)
    } else if spells(s, 'M', 'O', 'N') {
        Some(Dow::Mon)
    } else if spells(s, 'T', 'U', 'E') {
        Some(Dow::Tue)
    } else if spells(s, 'W', 'E', 'D') {
        Some(Dow::Wed)
    } else if spells(s, 'T', 'H', 'U') {
        Some(Dow::Thu)
    } else if spells(s, 'F', 'R', 'I') {
        Some(Dow::Fri)
    } else if spells(s, 'S', 'A', 'T') {
        Some(Dow::Sat)
    } else {
        None
    }
}

fn letter_matches(c: char, upper: char) -> (r: bool)
    requires
        'A' <= upper <= 'Z',
    ensures
        r == is_letter(c, upper),
{
    c == upper || c as u32 == upper as u32 + 32 || (upper == 'S' && c == '\u{17f}') || (upper == 'I'
        && c == '\u{131}')
}

fn spelled(v: &Vec<char>, from: usize, a: char, b: char, c: char) -> (r: bool)
    requires
        from + 3 <= v.len(),
        'A' <= a <= 'Z',
        'A' <= b <= 'Z',
        'A' <= c <= 'Z',
    ensures
        r == spells(v@.subrange(from as int, from + 3), a, b, c),
{
    letter_matches(v[from], a) && letter_matches(v[from + 1], b) && letter_matches(v[from + 2], c)
}

/// The weekday that `v[from..to]` names, if it names one.
pub fn weekday_in(v: &Vec<char>, from: usize, to: usize) -> (r: Option<Dow>)
    requires
        from <= to <= v.len(),
    ensures
        r == weekday_named(v@.subrange(from as int, to as int)),
{
    if to - from != 3 {
        None
    } else if spelled(v, from, 'S', 'U', 'N') {
        Some(Dow::Sun)
    } else if spelled(v, from, 'M', 'O', 'N') {
        Some(Dow::Mon)
    } else if spelled(v, from, 'T', 'U', 'E') {
        Some(Dow::Tue)
    } else if spelled(v, from, 'W', 'E', 'D') {
        Some(Dow::Wed)
    } else if spelled(v, from, 'T', 'H', 'U') {
        Some(Dow::Thu)
    } else if spelled(v, from, 'F', 'R', 'I') {
        Some(Dow::Fri)
    } else if spelled(v, from, 'S', 'A', 'T') {
        Some(Dow::Sat)
    } else {
        None
    }
}

impl Dow {
    /// The day's number: 0 for Sunday to 6 for Saturday.
    pub open spec fn number(self) -> int {
        match self {
            Dow::Sun => 0,
            Dow::Mon => 1,
            Dow::Tue => 2,
            Dow::Wed => 3,
            Dow::Thu => 4,
            Dow::Fri => 5,
            Dow::Sat => 6,
        }
    }

    /// The day's number as a machine integer.
    pub fn index(self) -> (n: usize)
        ensures
            n == self.number(),
    {
        match self {
            Dow::Sun => 0,
            Dow::Mon => 1,
            Dow::Tue => 2,
            Dow::Wed => 3,
            Dow::Thu => 4,
            Dow::Fri => 5,
            Dow::Sat => 6,
        }
    }

    /// Reads a weekday name. `Err(())` says that `s` names no weekday.
    pub fn from_str(s: &str) -> (r: Result<Dow, ()>)
        ensures
            match weekday_named(s@) {
                Some(d) => r == Ok::<Dow, ()>(d),
                None => r.is_err(),
            },
    {
        let v = chars_of(s);
        proof {
            assert(v@.subrange(0, v.len() as int) =~= s@);
        }
        match weekday_in(&v, 0, v.len()) {
            Some(d) => Ok(d),
            None => Err(()),
        }
    }
}

} // verus!
