//! Calendar dates and wall-clock times, and the calendar questions that the
//! search asks: the day after, the weekday, the day of the year, the ISO week.

use vstd::prelude::*;
use chrono::Datelike;

verus! {

/// The first year a date may lie in.
pub const FIRST_YEAR: i32 = -262_143;

/// The last year a date may lie in.
pub const LAST_YEAR: i32 = 262_142;

/// A date of the proleptic Gregorian calendar, as plain numbers.
pub struct CivilDate {
    pub year: int,
    pub month: int,
    pub day: int,
}

/// A date and a time of day, to the second.
pub struct CivilTime {
    pub date: CivilDate,
    pub hour: int,
    pub minute: int,
    pub second: int,
}

/// Whether `year` has a 29th of February.
pub open spec fn is_leap_year(year: int) -> bool {
    year % 4 == 0 && (year % 100 != 0 || year % 400 == 0)
}

/// The number of days of `month` in `year`.
pub open spec fn days_in_month(year: int, month: int) -> int {
    if month == 2 {
        if is_leap_year(year) {
            29
        } else {
            28
        }
    } else if month == 4 || month == 6 || month == 9 || month == 11 {
        30
    } else {
        31
    }
}

/// The number of days of `year` that lie before the first of `month`.
pub open spec fn days_before_month(year: int, month: int) -> int
    decreases month,
{
    if month <= 1 {
        0
    } else {
        days_before_month(year, month - 1) + days_in_month(year, month - 1)
    }
}

/// The weekday of a date, counted from Sunday as 0.
pub uninterp spec fn weekday_index(year: int, month: int, day: int) -> int;

/// The number of the ISO 8601 week that a date lies in.
pub uninterp spec fn iso_week_index(year: int, month: int, day: int) -> int;

impl CivilDate {
    /// Whether this is a day of the calendar, in a year that can be held.
    pub open spec fn valid(self) -> bool {
        &&& FIRST_YEAR <= self.year <= LAST_YEAR
        &&& 1 <= self.month <= 12
        &&& 1 <= self.day <= days_in_month(self.year, self.month)
    }

    /// The day after this one.
    pub open spec fn next(self) -> CivilDate {
        if self.day < days_in_month(self.year, self.month) {
            CivilDate { year: self.year, month: self.month, day: self.day + 1 }
        } else if self.month < 12 {
            CivilDate { year: self.year, month: self.month + 1, day: 1 }
        } else {
            CivilDate { year: self.year + 1, month: 1, day: 1 }
        }
    }

    /// The day that comes `days` days after this one.
    pub open spec fn plus_days(self, days: nat) -> CivilDate
        decreases days,
    {
        if days == 0 {
            self
        } else {
            self.next().plus_days((days - 1) as nat)
        }
    }

    /// The first day of the month after this one's.
    pub open spec fn next_month(self) -> CivilDate {
        if self.month >= 12 {
            CivilDate { year: self.year + 1, month: 1, day: 1 }
        } else {
            CivilDate { year: self.year, month: self.month + 1, day: 1 }
        }
    }

    /// The day's number within its year, from 1.
    pub open spec fn day_of_year(self) -> int {
        days_before_month(self.year, self.month) + self.day
    }

    /// The weekday, counted from Sunday as 0.
    pub open spec fn weekday(self) -> int {
        weekday_index(self.year, self.month, self.day)
    }

    /// The number of the ISO week.
    pub open spec fn iso_week(self) -> int {
        iso_week_index(self.year, self.month, self.day)
    }

    /// Whether this date comes earlier than `other`.
    pub open spec fn before(self, other: CivilDate) -> bool {
        ||| self.year < other.year
        ||| (self.year == other.year && self.month < other.month)
        ||| (self.year == other.year && self.month == other.month && self.day < other.day)
    }
}

impl CivilTime {
    /// Whether this is a time of a day of the calendar.
    pub open spec fn valid(self) -> bool {
        &&& self.date.valid()
        &&& 0 <= self.hour <= 23
        &&& 0 <= self.minute <= 59
        &&& 0 <= self.second <= 59
    }

    /// The start of `date`.
    pub open spec fn midnight(date: CivilDate) -> CivilTime {
        CivilTime { date, hour: 0, minute: 0, second: 0 }
    }

    /// Whether this time comes earlier than `other`.
    pub open spec fn before(self, other: CivilTime) -> bool {
        ||| self.date.before(other.date)
        ||| (self.date == other.date && self.hour < other.hour)
        ||| (self.date == other.date && self.hour == other.hour && self.minute < other.minute)
        ||| (self.date == other.date && self.hour == other.hour && self.minute == other.minute
            && self.second < other.second)
    }
}

/// A day later, a valid date is still one, unless the calendar's last year ends.
pub proof fn lemma_next_valid(d: CivilDate)
    requires
        d.valid(),
        d.year < LAST_YEAR,
    ensures
        d.next().valid(),
        d.before(d.next()),
        d.next().year <= d.year + 1,
        d.next().year == d.year + 1 ==> d.next().month == 1 && d.next().day == 1,
{
}

/// Up to 28 days on, a valid date is still valid, lies later, and has left its
/// year only for the January that follows.
pub proof fn lemma_plus_days(d: CivilDate, days: nat)
    requires
        d.valid(),
        d.year < LAST_YEAR,
        days <= 28,
    ensures
        d.plus_days(days).valid(),
        days > 0 ==> d.before(d.plus_days(days)),
        days == 0 ==> d.plus_days(days) == d,
        d.plus_days(days).year <= d.year + 1,
        d.plus_days(days).year == d.year + 1 ==> d.plus_days(days).month == 1 && d.plus_days(
            days,
        ).day <= days,
    decreases days,
{
    if days > 0 {
        lemma_next_valid(d);
        let n = d.next();
        if n.year == d.year {
            lemma_plus_days(n, (days - 1) as nat);
        } else {
            lemma_stays_in_january(n, (days - 1) as nat);
        }
    }
}

/// From the first of January, fewer than 28 days lead to a later day of the
/// same January.
pub proof fn lemma_stays_in_january(d: CivilDate, days: nat)
    requires
        d.valid(),
        d.month == 1,
        d.day + days <= 31,
    ensures
        d.plus_days(days) == (CivilDate { year: d.year, month: 1, day: d.day + days }),
    decreases days,
{
    if days > 0 {
        lemma_stays_in_january(d.next(), (days - 1) as nat);
    }
}

/// A calendar date.
#[derive(Debug, Clone, Copy, PartialEq, Eq, Structural)]
pub struct Date {
    pub year: i32,
    pub month: u32,
    pub day: u32,
}

/// A wall-clock time: a date and a time of day, to the second.
#[derive(Debug, Clone, Copy, PartialEq, Eq, Structural)]
pub struct LocalTime {
    pub date: Date,
    pub hour: u32,
    pub minute: u32,
    pub second: u32,
}

impl View for Date {
    type V = CivilDate;

    open spec fn view(&self) -> CivilDate {
        CivilDate { year: self.year as int, month: self.month as int, day: self.day as int }
    }
}

impl View for LocalTime {
    type V = CivilTime;

    open spec fn view(&self) -> CivilTime {
        CivilTime {
            date: self.date@,
            hour: self.hour as int,
            minute: self.minute as int,
            second: self.second as int,
        }
    }
}

/// Whether `year` is a leap year.
fn leap_year(year: i32) -> (r: bool)
    requires
        FIRST_YEAR <= year <= LAST_YEAR,
    ensures
        r == is_leap_year(year as int),
{
    // 400_000 is a multiple of 400, so the remainders are those of `year`.
    let shifted: i32 = year + 400_000;
    shifted % 4 == 0 && (shifted % 100 != 0 || shifted % 400 == 0)
}

/// The number of days of `month` in `year`.
fn month_length(year: i32, month: u32) -> (r: u32)
    requires
        FIRST_YEAR <= year <= LAST_YEAR,
    ensures
        r == days_in_month(year as int, month as int),
{
    if month == 2 {
        if leap_year(year) {
            29
        } else {
            28
        }
    } else if month == 4 || month == 6 || month == 9 || month == 11 {
        30
    } else {
        31
    }
}

impl Date {
    /// Whether the numbers name a day of the calendar.
    pub open spec fn wf(&self) -> bool {
        self@.valid()
    }

    /// Tests `wf`.
    pub fn is_valid(&self) -> (r: bool)
        ensures
            r == self.wf(),
    {
        FIRST_YEAR <= self.year && self.year <= LAST_YEAR && 1 <= self.month && self.month <= 12
            && 1 <= self.day && self.day <= month_length(self.year, self.month)
    }

    /// The date with these numbers, if there is one.
    pub fn new(year: i32, month: u32, day: u32) -> (r: Option<Date>)
        ensures
            match r {
                Some(d) => d.wf() && d.year == year && d.month == month && d.day == day,
                None => !(CivilDate { year: year as int, month: month as int, day: day as int })
                    .valid(),
            },
    {
        let d = Date { year, month, day };
        if d.is_valid() {
            Some(d)
        } else {
            None
        }
    }

    /// `NaiveDate::checked_add_days`, on the date that
    /// `NaiveDate::from_ymd_opt` makes of these numbers: the date `days` days,
    /// a week at most, after this one, which is where going to the next day
    /// of the calendar that many times leads.
    #[verifier::external_body]
    pub(crate) fn plus_days(&self, days: u32) -> (r: Date)
        requires
            self.wf(),
            self.year < LAST_YEAR,
            days <= 7,
        ensures
            r@ == self@.plus_days(days as nat),
    {
        let start = chrono::NaiveDate::from_ymd_opt(self.year, self.month, self.day).unwrap();
        let then = start.checked_add_days(chrono::Days::new(days as u64)).unwrap();
        Date { year: then.year(), month: then.month(), day: then.day() }
    }

    /// `NaiveDate::weekday` and `Weekday::num_days_from_sunday`: the weekday,
    /// as a number from 0 for Sunday to 6 for Saturday.
    #[verifier::external_body]
    pub(crate) fn weekday(&self) -> (r: u32)
        requires
            self.wf(),
        ensures
            r == weekday_index(self.year as int, self.month as int, self.day as int),
            r <= 6,
    {
        let date = chrono::NaiveDate::from_ymd_opt(self.year, self.month, self.day).unwrap();
        date.weekday().num_days_from_sunday()
    }

    /// `NaiveDate::ordinal`: the day's number within its year, which is the
    /// length of the months before it plus the day of the month.
    #[verifier::external_body]
    pub(crate) fn day_of_year(&self) -> (r: u32)
        requires
            self.wf(),
        ensures
            r == self@.day_of_year(),
    {
        chrono::NaiveDate::from_ymd_opt(self.year, self.month, self.day).unwrap().ordinal()
    }

    /// `NaiveDate::iso_week` and `IsoWeek::week`: the number of the ISO week,
    /// from 1 to 53.
    #[verifier::external_body]
    pub(crate) fn iso_week(&self) -> (r: u32)
        requires
            self.wf(),
        ensures
            r == iso_week_index(self.year as int, self.month as int, self.day as int),
            1 <= r <= 53,
    {
        chrono::NaiveDate::from_ymd_opt(self.year, self.month, self.day).unwrap().iso_week().week()
    }
}

impl LocalTime {
    /// Whether the numbers name a time of a day of the calendar.
    pub open spec fn wf(&self) -> bool {
        self@.valid()
    }

    /// Tests `wf`.
    pub fn is_valid(&self) -> (r: bool)
        ensures
            r == self.wf(),
    {
        self.date.is_valid() && self.hour <= 23 && self.minute <= 59 && self.second <= 59
    }

    /// The time with these numbers, if there is one.
    pub fn new(year: i32, month: u32, day: u32, hour: u32, minute: u32, second: u32) -> (r: Option<
        LocalTime,
    >)
        ensures
            match r {
                Some(t) => t.wf() && t == (LocalTime {
                    date: Date { year, month, day },
                    hour,
                    minute,
                    second,
                }),
                None => !(LocalTime { date: Date { year, month, day }, hour, minute, second }).wf(),
            },
    {
        let t = LocalTime { date: Date { year, month, day }, hour, minute, second };
        if t.is_valid() {
            Some(t)
        } else {
            None
        }
    }
}

} // verus!
