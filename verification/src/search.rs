//! The search for the next time at which every field of a schedule holds an
//! allowed value.
//!
//! The search starts one second after the reference time. It tests the fields
//! from the coarsest to the finest; at the first field whose value is not
//! allowed it moves the candidate on by that field's unit, sets every finer
//! field to its least value, and tests again from the start. It gives up once
//! the candidate's year lies more than ten years after the reference year.

use vstd::prelude::*;
use crate::calendar::{CivilDate, CivilTime, Date, LocalTime, FIRST_YEAR, LAST_YEAR};
use crate::calendar::{days_before_month, lemma_plus_days};
use crate::constraint::{FieldConstraint, FIELD_BITS};
use crate::error::ParseError;
use crate::field::{field_values, parse_field};

verus! {

/// How many years after the reference year a candidate may lie.
pub const HORIZON_YEARS: i32 = 10;

/// The last year a reference time may lie in: the search needs room for its
/// horizon.
pub const LAST_REFERENCE_YEAR: i32 = 262_131;

/// What the candidate is moved on by when a field does not match.
#[derive(Debug, Clone, Copy, PartialEq, Eq, Structural)]
pub enum Unit {
    /// To the start of the next month.
    Month,
    /// To the start of the next day.
    Day,
    /// To the start of the day seven days on.
    Week,
    /// To the start of the next Monday.
    IsoWeek,
    /// To the start of the next hour.
    Hour,
    /// To the start of the next minute.
    Minute,
    /// To the next second.
    Second,
}

/// The values that each field of a schedule allows.
pub struct Allowed {
    pub month: Set<int>,
    pub day_of_month: Set<int>,
    pub day_of_week: Set<int>,
    pub day_of_year: Set<int>,
    pub week_of_month: Set<int>,
    pub week_of_year: Set<int>,
    pub hour: Set<int>,
    pub minute: Set<int>,
    pub second: Set<int>,
}

/// The value of each field at one time.
pub struct Fields {
    pub month: int,
    pub day_of_month: int,
    pub day_of_week: int,
    pub day_of_year: int,
    pub week_of_month: int,
    pub week_of_year: int,
    pub hour: int,
    pub minute: int,
    pub second: int,
}

/// The number of days from a weekday, counted from Sunday as 0, to the
/// Monday after it: seven from a Monday, one from a Sunday.
pub open spec fn days_to_monday(weekday: int) -> int {
    7 - (weekday + 6) % 7
}

impl CivilTime {
    /// The start of the hour after this one.
    pub open spec fn next_hour(self) -> CivilTime {
        if self.hour < 23 {
            CivilTime { date: self.date, hour: self.hour + 1, minute: 0, second: 0 }
        } else {
            CivilTime::midnight(self.date.plus_days(1))
        }
    }

    /// The start of the minute after this one.
    pub open spec fn next_minute(self) -> CivilTime {
        if self.minute < 59 {
            CivilTime { date: self.date, hour: self.hour, minute: self.minute + 1, second: 0 }
        } else {
            self.next_hour()
        }
    }

    /// The second after this one.
    pub open spec fn next_second(self) -> CivilTime {
        if self.second < 59 {
            CivilTime {
                date: self.date,
                hour: self.hour,
                minute: self.minute,
                second: self.second + 1,
            }
        } else {
            self.next_minute()
        }
    }

    /// This time moved on by one `unit`, with every finer field at its least
    /// value.
    pub open spec fn advance(self, unit: Unit) -> CivilTime {
        match unit {
            Unit::Month => CivilTime::midnight(self.date.next_month()),
            Unit::Day => CivilTime::midnight(self.date.plus_days(1)),
            Unit::Week => CivilTime::midnight(self.date.plus_days(7)),
            Unit::IsoWeek => CivilTime::midnight(
                self.date.plus_days(days_to_monday(self.date.weekday()) as nat),
            ),
            Unit::Hour => self.next_hour(),
            Unit::Minute => self.next_minute(),
            Unit::Second => self.next_second(),
        }
    }

    /// What the nine checks test at this time. The week of the month is the
    /// day of the month divided by seven; the week of the year is the ISO
    /// week.
    pub open spec fn fields(self) -> Fields {
        Fields {
            month: self.date.month,
            day_of_month: self.date.day,
            day_of_week: self.date.weekday(),
            day_of_year: self.date.day_of_year(),
            week_of_month: self.date.day / 7,
            week_of_year: self.date.iso_week(),
            hour: self.hour,
            minute: self.minute,
            second: self.second,
        }
    }

    /// A count that grows as time goes on: for valid times, the earlier time
    /// has the smaller count.
    pub open spec fn ticks(self) -> int {
        ((((self.date.year * 12 + (self.date.month - 1)) * 31 + (self.date.day - 1)) * 24
            + self.hour) * 60 + self.minute) * 60 + self.second
    }
}

/// The count of the start of `year`.
pub open spec fn year_ticks(year: int) -> int {
    year * 12 * 31 * 24 * 60 * 60
}

/// The unit of the first field, from the coarsest, whose value is not
/// allowed; `None` if every value is allowed.
pub open spec fn first_mismatch(a: Allowed, f: Fields) -> Option<Unit> {
    if !a.month.contains(f.month) {
        Some(Unit::Month)
    } else if !a.day_of_month.contains(f.day_of_month) {
        Some(Unit::Day)
    } else if !a.day_of_week.contains(f.day_of_week) {
        Some(Unit::Day)
    } else if !a.day_of_year.contains(f.day_of_year) {
        Some(Unit::Day)
    } else if !a.week_of_month.contains(f.week_of_month) {
        Some(Unit::Week)
    } else if !a.week_of_year.contains(f.week_of_year) {
        Some(Unit::IsoWeek)
    } else if !a.hour.contains(f.hour) {
        Some(Unit::Hour)
    } else if !a.minute.contains(f.minute) {
        Some(Unit::Minute)
    } else if !a.second.contains(f.second) {
        Some(Unit::Second)
    } else {
        None
    }
}

/// Whether every one of the values is allowed.
pub open spec fn allows(a: Allowed, f: Fields) -> bool {
    &&& a.month.contains(f.month)
    &&& a.day_of_month.contains(f.day_of_month)
    &&& a.day_of_week.contains(f.day_of_week)
    &&& a.day_of_year.contains(f.day_of_year)
    &&& a.week_of_month.contains(f.week_of_month)
    &&& a.week_of_year.contains(f.week_of_year)
    &&& a.hour.contains(f.hour)
    &&& a.minute.contains(f.minute)
    &&& a.second.contains(f.second)
}

/// The unit by which the candidate `t` has to move on; `None` if it matches.
pub open spec fn due_unit(a: Allowed, t: CivilTime) -> Option<Unit> {
    first_mismatch(a, t.fields())
}

/// Whether every field of `t` holds an allowed value.
pub open spec fn satisfies(a: Allowed, t: CivilTime) -> bool {
    allows(a, t.fields())
}

/// Where the search that tests the candidate `t` ends: at `t` if it matches,
/// else where the search from the moved candidate ends; nowhere once the
/// candidate's year is more than `HORIZON_YEARS` after `base_year`.
pub open spec fn search(a: Allowed, base_year: int, t: CivilTime) -> Option<CivilTime>
    decreases year_ticks(base_year + HORIZON_YEARS + 2) - t.ticks(),
    when t.valid() && base_year + HORIZON_YEARS < LAST_YEAR
    via search_decreases
{
    if t.date.year - base_year > HORIZON_YEARS {
        None
    } else {
        match due_unit(a, t) {
            None => Some(t),
            Some(unit) => search(a, base_year, t.advance(unit)),
        }
    }
}

#[via_fn]
proof fn search_decreases(a: Allowed, base_year: int, t: CivilTime) {
    if t.date.year - base_year <= HORIZON_YEARS {
        if let Some(unit) = due_unit(a, t) {
            lemma_advance(t, unit);
            lemma_ticks_order(t, t.advance(unit));
        }
    }
}

/// The time that the search from the reference time `t` finds.
pub open spec fn next_occurrence(a: Allowed, t: CivilTime) -> Option<CivilTime> {
    search(a, t.date.year, t.advance(Unit::Second))
}

/// For valid times, earlier means a smaller count.
pub proof fn lemma_ticks_order(s: CivilTime, t: CivilTime)
    requires
        s.valid(),
        t.valid(),
    ensures
        s.before(t) <==> s.ticks() < t.ticks(),
        s.ticks() < year_ticks(s.date.year + 1),
{
}

/// Moving a valid time on gives a valid, later time, at most in the January
/// after its year.
pub proof fn lemma_advance(t: CivilTime, unit: Unit)
    requires
        t.valid(),
        t.date.year < LAST_YEAR,
    ensures
        t.advance(unit).valid(),
        t.before(t.advance(unit)),
        t.advance(unit).date.year <= t.date.year + 1,
{
    lemma_plus_days(t.date, 1);
    lemma_plus_days(t.date, 7);
    lemma_plus_days(t.date, days_to_monday(t.date.weekday()) as nat);
}

/// The day of the year of a valid date is at most 366.
pub proof fn lemma_day_of_year_bounds(d: CivilDate)
    requires
        d.valid(),
    ensures
        1 <= d.day_of_year() <= 366,
{
    reveal_with_fuel(days_before_month, 13);
}

/// Where a search ends, every field matches; the end is the candidate itself
/// or a later time, and within the horizon.
pub proof fn lemma_search_end(a: Allowed, base_year: int, t: CivilTime)
    requires
        t.valid(),
        base_year + HORIZON_YEARS < LAST_YEAR,
    ensures
        search(a, base_year, t) matches Some(r) ==> {
            &&& r.valid()
            &&& satisfies(a, r)
            &&& (r == t || t.before(r))
            &&& r.date.year - base_year <= HORIZON_YEARS
        },
    decreases year_ticks(base_year + HORIZON_YEARS + 2) - t.ticks(),
{
    if t.date.year - base_year <= HORIZON_YEARS {
        if let Some(unit) = due_unit(a, t) {
            let u = t.advance(unit);
            lemma_advance(t, unit);
            lemma_ticks_order(t, u);
            lemma_search_end(a, base_year, u);
            if let Some(r) = search(a, base_year, u) {
                if u != r {
                    lemma_ticks_order(u, r);
                    lemma_ticks_order(t, r);
                }
            }
        }
    }
}

/// The value of each field at one time, as the checks take it.
#[derive(Debug, Clone, Copy, PartialEq, Eq, Structural)]
pub struct Reading {
    pub month: u32,
    pub day_of_month: u32,
    pub day_of_week: u32,
    pub day_of_year: u32,
    pub week_of_month: u32,
    pub week_of_year: u32,
    pub hour: u32,
    pub minute: u32,
    pub second: u32,
}

impl View for Reading {
    type V = Fields;

    open spec fn view(&self) -> Fields {
        Fields {
            month: self.month as int,
            day_of_month: self.day_of_month as int,
            day_of_week: self.day_of_week as int,
            day_of_year: self.day_of_year as int,
            week_of_month: self.week_of_month as int,
            week_of_year: self.week_of_year as int,
            hour: self.hour as int,
            minute: self.minute as int,
            second: self.second as int,
        }
    }
}

impl Reading {
    /// Whether every value is small enough to be a member of a constraint.
    pub open spec fn wf(&self) -> bool {
        &&& self.month < FIELD_BITS
        &&& self.day_of_month < FIELD_BITS
        &&& self.day_of_week < FIELD_BITS
        &&& self.day_of_year < FIELD_BITS
        &&& self.week_of_month < FIELD_BITS
        &&& self.week_of_year < FIELD_BITS
        &&& self.hour < FIELD_BITS
        &&& self.minute < FIELD_BITS
        &&& self.second < FIELD_BITS
    }
}

/// The number of days from a weekday, counted from Sunday as 0, to the
/// Monday after it.
pub fn days_to_next_monday(weekday: u32) -> (r: u32)
    requires
        weekday <= 6,
    ensures
        r == days_to_monday(weekday as int),
        1 <= r <= 7,
{
    7 - (weekday + 6) % 7
}

impl LocalTime {
    /// Reads off the value of each field.
    pub fn reading(&self) -> (r: Reading)
        requires
            self.wf(),
        ensures
            r@ == self@.fields(),
            r.wf(),
    {
        proof {
            lemma_day_of_year_bounds(self.date@);
        }
        Reading {
            month: self.date.month,
            day_of_month: self.date.day,
            day_of_week: self.date.weekday(),
            day_of_year: self.date.day_of_year(),
            week_of_month: self.date.day / 7,
            week_of_year: self.date.iso_week(),
            hour: self.hour,
            minute: self.minute,
            second: self.second,
        }
    }

    /// The start of `date`.
    pub fn midnight(date: Date) -> (r: LocalTime)
        ensures
            r@ == CivilTime::midnight(date@),
    {
        LocalTime { date, hour: 0, minute: 0, second: 0 }
    }

    /// The start of the hour after this one.
    fn next_hour(&self) -> (r: LocalTime)
        requires
            self.wf(),
            self.date.year < LAST_YEAR,
        ensures
            r@ == self@.next_hour(),
    {
        if self.hour < 23 {
            LocalTime { date: self.date, hour: self.hour + 1, minute: 0, second: 0 }
        } else {
            LocalTime::midnight(self.date.plus_days(1))
        }
    }

    /// The start of the minute after this one.
    fn next_minute(&self) -> (r: LocalTime)
        requires
            self.wf(),
            self.date.year < LAST_YEAR,
        ensures
            r@ == self@.next_minute(),
    {
        if self.minute < 59 {
            LocalTime { date: self.date, hour: self.hour, minute: self.minute + 1, second: 0 }
        } else {
            self.next_hour()
        }
    }

    /// The second after this one.
    fn next_second(&self) -> (r: LocalTime)
        requires
            self.wf(),
            self.date.year < LAST_YEAR,
        ensures
            r@ == self@.next_second(),
    {
        if self.second < 59 {
            LocalTime {
                date: self.date,
                hour: self.hour,
                minute: self.minute,
                second: self.second + 1,
            }
        } else {
            self.next_minute()
        }
    }

    /// Moves this time on by one `unit` and sets every finer field to its
    /// least value.
    pub fn advance(&self, unit: Unit) -> (r: LocalTime)
        requires
            self.wf(),
            self.date.year < LAST_YEAR,
        ensures
            r@ == self@.advance(unit),
            r.wf(),
            self@.before(r@),
            r.date.year <= self.date.year + 1,
    {
        proof {
            lemma_advance(self@, unit);
        }
        match unit {
            Unit::Month => {
                let date = if self.date.month >= 12 {
                    Date { year: self.date.year + 1, month: 1, day: 1 }
                } else {
                    Date { year: self.date.year, month: self.date.month + 1, day: 1 }
                };
                LocalTime::midnight(date)
            },
            Unit::Day => LocalTime::midnight(self.date.plus_days(1)),
            Unit::Week => LocalTime::midnight(self.date.plus_days(7)),
            Unit::IsoWeek => {
                let days = days_to_next_monday(self.date.weekday());
                LocalTime::midnight(self.date.plus_days(days))
            },
            Unit::Hour => self.next_hour(),
            Unit::Minute => self.next_minute(),
            Unit::Second => self.next_second(),
        }
    }
}

/// A schedule in parsed form: the set of allowed values of each field.
#[derive(Debug)]
pub struct Schedule {
    pub month: FieldConstraint,
    pub day_of_month: FieldConstraint,
    pub day_of_week: FieldConstraint,
    pub day_of_year: FieldConstraint,
    pub week_of_month: FieldConstraint,
    pub week_of_year: FieldConstraint,
    pub hour: FieldConstraint,
    pub minute: FieldConstraint,
    pub second: FieldConstraint,
}

impl View for Schedule {
    type V = Allowed;

    open spec fn view(&self) -> Allowed {
        Allowed {
            month: self.month@,
            day_of_month: self.day_of_month@,
            day_of_week: self.day_of_week@,
            day_of_year: self.day_of_year@,
            week_of_month: self.week_of_month@,
            week_of_year: self.week_of_year@,
            hour: self.hour@,
            minute: self.minute@,
            second: self.second@,
        }
    }
}

impl Schedule {
    /// Tests the values from the coarsest field to the finest and names the
    /// unit of the first that is not allowed.
    pub fn first_mismatch(&self, r: &Reading) -> (u: Option<Unit>)
        requires
            r.wf(),
        ensures
            u == first_mismatch(self@, r@),
            u is None <==> allows(self@, r@),
    {
        if !self.month.get(r.month as usize) {
            Some(Unit::Month)
        } else if !self.day_of_month.get(r.day_of_month as usize) {
            Some(Unit::Day)
        } else if !self.day_of_week.get(r.day_of_week as usize) {
            Some(Unit::Day)
        } else if !self.day_of_year.get(r.day_of_year as usize) {
            Some(Unit::Day)
        } else if !self.week_of_month.get(r.week_of_month as usize) {
            Some(Unit::Week)
        } else if !self.week_of_year.get(r.week_of_year as usize) {
            Some(Unit::IsoWeek)
        } else if !self.hour.get(r.hour as usize) {
            Some(Unit::Hour)
        } else if !self.minute.get(r.minute as usize) {
            Some(Unit::Minute)
        } else if !self.second.get(r.second as usize) {
            Some(Unit::Second)
        } else {
            None
        }
    }

    /// Names the unit by which the candidate `t` has to move on, or `None`
    /// if every field of `t` matches.
    pub fn due_unit(&self, t: &LocalTime) -> (r: Option<Unit>)
        requires
            t.wf(),
        ensures
            r == due_unit(self@, t@),
            r is None <==> satisfies(self@, t@),
    {
        let reading = t.reading();
        self.first_mismatch(&reading)
    }

    /// Finds the first candidate later than `after` at which every field
    /// matches, giving up once the candidate's year is more than
    /// `HORIZON_YEARS` after `base_year`.
    pub fn next_after(&self, base_year: i32, after: &LocalTime) -> (r: Result<
        LocalTime,
        ParseError,
    >)
        requires
            after.wf(),
            after.date.year < LAST_YEAR,
            FIRST_YEAR <= base_year <= LAST_REFERENCE_YEAR,
        ensures
            match search(self@, base_year as int, after@.advance(Unit::Second)) {
                Some(t) => r matches Ok(found) && found@ == t,
                None => r matches Err(e) && e == ParseError::HorizonExceeded,
            },
            r matches Ok(found) ==> {
                &&& found.wf()
                &&& after@.before(found@)
                &&& satisfies(self@, found@)
                &&& found.date.year - base_year <= HORIZON_YEARS
            },
    {
        let mut candidate = after.advance(Unit::Second);
        let ghost start = candidate@;
        loop
            invariant
                candidate.wf(),
                after.wf(),
                after@.before(candidate@),
                start == after@.advance(Unit::Second),
                FIRST_YEAR <= base_year <= LAST_REFERENCE_YEAR,
                search(self@, base_year as int, candidate@) == search(
                    self@,
                    base_year as int,
                    start,
                ),
            decreases year_ticks(base_year + HORIZON_YEARS + 2) - candidate@.ticks(),
        {
            if candidate.date.year - base_year > HORIZON_YEARS {
                return Err(ParseError::HorizonExceeded);
            }
            match self.due_unit(&candidate) {
                None => {
                    return Ok(candidate);
                },
                Some(unit) => {
                    let moved = candidate.advance(unit);
                    proof {
                        lemma_ticks_order(candidate@, moved@);
                        lemma_ticks_order(after@, candidate@);
                        lemma_ticks_order(after@, moved@);
                    }
                    candidate = moved;
                },
            }
        }
    }
}

/// A schedule as it is configured: one text per field, kept as given.
#[derive(Debug, Clone)]
pub struct TimerConfig {
    pub sec: String,
    pub min: String,
    pub hour: String,
    pub day_of_month: String,
    pub month: String,
    pub week_of_month: String,
    pub day_of_week: String,
    pub day_of_year: String,
    pub week_of_year: String,
    pub year: String,
}

impl TimerConfig {
    /// What the fields allow, or the error of the first field that does not
    /// parse. The fields are read in the order month, day of month, day of
    /// week, day of year, week of month, week of year, hour, minute, second.
    pub open spec fn allowed(&self) -> Result<Allowed, ParseError> {
        let month = field_values(self.month@, 1, 12);
        let day_of_month = field_values(self.day_of_month@, 1, 31);
        let day_of_week = field_values(self.day_of_week@, 0, 6);
        let day_of_year = field_values(self.day_of_year@, 1, 366);
        let week_of_month = field_values(self.week_of_month@, 1, 4);
        let week_of_year = field_values(self.week_of_year@, 1, 53);
        let hour = field_values(self.hour@, 0, 23);
        let minute = field_values(self.min@, 0, 59);
        let second = field_values(self.sec@, 0, 59);
        if month is Err {
            Err(month->Err_0)
        } else if day_of_month is Err {
            Err(day_of_month->Err_0)
        } else if day_of_week is Err {
            Err(day_of_week->Err_0)
        } else if day_of_year is Err {
            Err(day_of_year->Err_0)
        } else if week_of_month is Err {
            Err(week_of_month->Err_0)
        } else if week_of_year is Err {
            Err(week_of_year->Err_0)
        } else if hour is Err {
            Err(hour->Err_0)
        } else if minute is Err {
            Err(minute->Err_0)
        } else if second is Err {
            Err(second->Err_0)
        } else {
            Ok(
                Allowed {
                    month: month->Ok_0,
                    day_of_month: day_of_month->Ok_0,
                    day_of_week: day_of_week->Ok_0,
                    day_of_year: day_of_year->Ok_0,
                    week_of_month: week_of_month->Ok_0,
                    week_of_year: week_of_year->Ok_0,
                    hour: hour->Ok_0,
                    minute: minute->Ok_0,
                    second: second->Ok_0,
                },
            )
        }
    }

    /// Parses every field.
    pub fn compile(&self) -> (r: Result<Schedule, ParseError>)
        ensures
            match self.allowed() {
                Ok(a) => r matches Ok(s) && s@ == a,
                Err(e) => r matches Err(f) && f == e,
            },
    {
        let month = parse_field(self.month.as_str(), 1, 12)?;
        let day_of_month = parse_field(self.day_of_month.as_str(), 1, 31)?;
        let day_of_week = parse_field(self.day_of_week.as_str(), 0, 6)?;
        let day_of_year = parse_field(self.day_of_year.as_str(), 1, 366)?;
        let week_of_month = parse_field(self.week_of_month.as_str(), 1, 4)?;
        let week_of_year = parse_field(self.week_of_year.as_str(), 1, 53)?;
        let hour = parse_field(self.hour.as_str(), 0, 23)?;
        let minute = parse_field(self.min.as_str(), 0, 59)?;
        let second = parse_field(self.sec.as_str(), 0, 59)?;
        Ok(
            Schedule {
                month,
                day_of_month,
                day_of_week,
                day_of_year,
                week_of_month,
                week_of_year,
                hour,
                minute,
                second,
            },
        )
    }

    /// Finds the next time after `dt` at which the schedule is due.
    ///
    /// Fails with the error of the first field that does not parse, or with
    /// `HorizonExceeded` if the search passes the tenth year after that of
    /// `dt` without a match.
    pub fn parse(&self, dt: &LocalTime) -> (r: Result<LocalTime, ParseError>)
        requires
            dt.wf(),
            dt.date.year <= LAST_REFERENCE_YEAR,
        ensures
            match self.allowed() {
                Err(e) => r matches Err(f) && f == e,
                Ok(a) => match next_occurrence(a, dt@) {
                    Some(t) => r matches Ok(found) && found@ == t,
                    None => r matches Err(f) && f == ParseError::HorizonExceeded,
                },
            },
            r matches Ok(found) ==> {
                &&& found.wf()
                &&& dt@.before(found@)
                &&& self.allowed() matches Ok(a) && satisfies(a, found@)
            },
    {
        let schedule = self.compile()?;
        schedule.next_after(dt.date.year, dt)
    }
}

} // verus!
