use chrono::{Datelike, Duration, Local, NaiveDate, NaiveDateTime, Timelike, Utc};
use timer_schedule::search::days_to_next_monday;
use timer_schedule::{Date, LocalTime, ParseError, Reading, TimerConfig, Unit};

fn config(fields: [&str; 9]) -> TimerConfig {
    TimerConfig {
        sec: fields[0].to_string(),
        min: fields[1].to_string(),
        hour: fields[2].to_string(),
        day_of_month: fields[3].to_string(),
        month: fields[4].to_string(),
        week_of_month: fields[5].to_string(),
        day_of_week: fields[6].to_string(),
        day_of_year: fields[7].to_string(),
        week_of_year: fields[8].to_string(),
        year: "*".to_string(),
    }
}

fn at(year: i32, month: u32, day: u32, hour: u32, minute: u32, second: u32) -> LocalTime {
    LocalTime::new(year, month, day, hour, minute, second).unwrap()
}

fn naive(t: &LocalTime) -> NaiveDateTime {
    NaiveDate::from_ymd_opt(t.date.year, t.date.month, t.date.day)
        .unwrap()
        .and_hms_opt(t.hour, t.minute, t.second)
        .unwrap()
}

fn local(n: &NaiveDateTime) -> LocalTime {
    at(n.year(), n.month(), n.day(), n.hour(), n.minute(), n.second())
}

fn start_of_day(n: NaiveDateTime) -> NaiveDateTime {
    n.date().and_hms_opt(0, 0, 0).unwrap()
}

/// The walk over the nine checks, done with the calendar library alone.
fn reference_walk(sets: &[Vec<usize>; 9], from: &NaiveDateTime) -> Option<NaiveDateTime> {
    let [second, minute, hour, day_of_month, month, week_of_month, day_of_week, day_of_year, week_of_year] =
        sets;
    let mut next = *from + Duration::seconds(1);
    loop {
        if next.year() - from.year() > 10 {
            return None;
        }
        if !month.contains(&(next.month() as usize)) {
            next = if next.month() == 12 {
                NaiveDate::from_ymd_opt(next.year() + 1, 1, 1).unwrap().and_hms_opt(0, 0, 0).unwrap()
            } else {
                NaiveDate::from_ymd_opt(next.year(), next.month() + 1, 1)
                    .unwrap()
                    .and_hms_opt(0, 0, 0)
                    .unwrap()
            };
            continue;
        }
        if !day_of_month.contains(&(next.day() as usize))
            || !day_of_week.contains(&(next.weekday().num_days_from_sunday() as usize))
            || !day_of_year.contains(&(next.ordinal() as usize))
        {
            next = start_of_day(next + Duration::days(1));
            continue;
        }
        if !week_of_month.contains(&(next.day() as usize / 7)) {
            next = start_of_day(next + Duration::days(7));
            continue;
        }
        if !week_of_year.contains(&(next.iso_week().week() as usize)) {
            let to_monday = 7 - next.weekday().num_days_from_monday() as i64;
            next = start_of_day(next + Duration::days(to_monday));
            continue;
        }
        if !hour.contains(&(next.hour() as usize)) {
            next = next + Duration::hours(1);
            next = next.date().and_hms_opt(next.hour(), 0, 0).unwrap();
            continue;
        }
        if !minute.contains(&(next.minute() as usize)) {
            next = next + Duration::minutes(1);
            next = next.date().and_hms_opt(next.hour(), next.minute(), 0).unwrap();
            continue;
        }
        if !second.contains(&(next.second() as usize)) {
            next = next + Duration::seconds(1);
            continue;
        }
        return Some(next);
    }
}

fn sets_of(c: &TimerConfig) -> [Vec<usize>; 9] {
    let s = c.compile().unwrap();
    [
        s.second.to_vec(),
        s.minute.to_vec(),
        s.hour.to_vec(),
        s.day_of_month.to_vec(),
        s.month.to_vec(),
        s.week_of_month.to_vec(),
        s.day_of_week.to_vec(),
        s.day_of_year.to_vec(),
        s.week_of_year.to_vec(),
    ]
}

#[test]
fn test_schedul() {
    let text = r#"
            {
                "sec": "0",
                "min": "0",
                "hour": "8",
                "day_of_month": "*",
                "month": "*",
                "week_of_month": "*",
                "day_of_week": "2",
                "day_of_year": "*",
                "week_of_year": "*",
                "year": "*"
            }
        "#;
    let json: serde_json::Value = serde_json::from_str(text).unwrap();
    let field = |name: &str| json[name].as_str().unwrap().to_string();
    let c = TimerConfig {
        sec: field("sec"),
        min: field("min"),
        hour: field("hour"),
        day_of_month: field("day_of_month"),
        month: field("month"),
        week_of_month: field("week_of_month"),
        day_of_week: field("day_of_week"),
        day_of_year: field("day_of_year"),
        week_of_year: field("week_of_year"),
        year: field("year"),
    };
    let now = Utc::now().with_timezone(&Local);
    let dt = local(&now.naive_local());
    match c.parse(&dt) {
        Ok(res) => {
            println!(
                "res = {:?}, res mills = {:?}",
                res,
                naive(&res).signed_duration_since(now.naive_local()).num_milliseconds()
            );
            assert!(naive(&res) > naive(&dt));
            assert_eq!(chrono::Weekday::Tue, naive(&res).weekday());
            assert_eq!((8, 0, 0), (res.hour, res.minute, res.second));
        }
        Err(e) => println!("no such date == {:?}", e.to_string()),
    }
}

#[test]
fn tuesday_at_eight_after_a_monday() {
    let c = config(["0", "0", "8", "*", "*", "*", "2", "*", "*"]);
    let monday = at(2024, 1, 8, 12, 0, 0);
    assert_eq!(chrono::Weekday::Mon, naive(&monday).weekday());
    assert_eq!(Ok(at(2024, 1, 9, 8, 0, 0)), c.parse(&monday));
    // Early on the Tuesday itself the same day is still ahead.
    assert_eq!(Ok(at(2024, 1, 9, 8, 0, 0)), c.parse(&at(2024, 1, 9, 7, 59, 59)));
    // At eight sharp the next one is a week away.
    assert_eq!(Ok(at(2024, 1, 16, 8, 0, 0)), c.parse(&at(2024, 1, 9, 8, 0, 0)));
}

#[test]
fn february_31_is_never_found() {
    let c = config(["0", "0", "0", "31", "2", "*", "*", "*", "*"]);
    assert_eq!(Err(ParseError::HorizonExceeded), c.parse(&at(2024, 1, 8, 12, 0, 0)));
    assert_eq!(Err(ParseError::HorizonExceeded), c.parse(&at(1999, 12, 31, 23, 59, 59)));
}

#[test]
fn empty_field_is_never_found() {
    let c = config(["*", "*", "*", "*", "", "*", "*", "*", "*"]);
    assert_eq!(Err(ParseError::HorizonExceeded), c.parse(&at(2024, 1, 8, 12, 0, 0)));
    let c = config(["*", "*", "*", ",", "*", "*", "*", "*", "*"]);
    assert_eq!(Err(ParseError::HorizonExceeded), c.parse(&at(2024, 1, 8, 12, 0, 0)));
}

#[test]
fn every_second_matches_when_all_fields_are_open() {
    // Week 0 of a month, its first six days, is outside `*` for the week of
    // the month, so the walk starts on a later day.
    let c = config(["*", "*", "*", "*", "*", "*", "*", "*", "*"]);
    assert_eq!(Ok(at(2024, 1, 8, 12, 0, 1)), c.parse(&at(2024, 1, 8, 12, 0, 0)));
    assert_eq!(Ok(at(2024, 1, 8, 12, 1, 0)), c.parse(&at(2024, 1, 8, 12, 0, 59)));
    assert_eq!(Ok(at(2024, 1, 8, 13, 0, 0)), c.parse(&at(2024, 1, 8, 12, 59, 59)));
    assert_eq!(Ok(at(2024, 1, 9, 0, 0, 0)), c.parse(&at(2024, 1, 8, 23, 59, 59)));
    assert_eq!(Ok(at(2024, 2, 29, 0, 0, 0)), c.parse(&at(2024, 2, 28, 23, 59, 59)));
    assert_eq!(Ok(at(2023, 3, 8, 0, 0, 0)), c.parse(&at(2023, 2, 28, 23, 59, 59)));
}

#[test]
fn week_of_month_is_day_divided_by_seven() {
    let open = config(["0", "0", "0", "*", "*", "0,1,2,3,4", "*", "*", "*"]);
    assert_eq!(Ok(at(2024, 4, 1, 0, 0, 0)), open.parse(&at(2024, 3, 31, 12, 0, 0)));
    let first = config(["0", "0", "0", "*", "*", "1", "*", "*", "*"]);
    assert_eq!(Ok(at(2024, 4, 7, 0, 0, 0)), first.parse(&at(2024, 3, 31, 12, 0, 0)));
    assert_eq!(Ok(at(2024, 4, 13, 0, 0, 0)), first.parse(&at(2024, 4, 12, 12, 0, 0)));
    let fourth = config(["0", "0", "0", "*", "*", "4", "*", "*", "*"]);
    assert_eq!(Ok(at(2024, 2, 29, 0, 0, 0)), fourth.parse(&at(2024, 2, 1, 0, 0, 0)));
    assert_eq!(Ok(at(2024, 4, 30, 0, 0, 0)), fourth.parse(&at(2024, 2, 27, 0, 0, 0)));
    assert_eq!(Ok(at(2024, 2, 29, 0, 0, 0)), fourth.parse(&at(2024, 2, 28, 0, 0, 0)));
    // A mismatch moves seven days on, so a matching day in between is passed.
    assert_eq!(Ok(at(2024, 4, 11, 0, 0, 0)), first.parse(&at(2024, 4, 4, 12, 0, 0)));
    // With `*` the first six days of a month are passed over.
    let star = config(["0", "0", "8", "*", "*", "*", "2", "*", "*"]);
    assert_eq!(Ok(at(2024, 4, 9, 8, 0, 0)), star.parse(&at(2024, 4, 1, 12, 0, 0)));
}

#[test]
fn day_of_year_counts_from_new_year() {
    let c = config(["0", "0", "0", "*", "*", "0-4", "*", "60", "*"]);
    assert_eq!(Ok(at(2024, 2, 29, 0, 0, 0)), c.parse(&at(2024, 1, 1, 0, 0, 0)));
    assert_eq!(Ok(at(2025, 3, 1, 0, 0, 0)), c.parse(&at(2024, 2, 29, 0, 0, 0)));
    let last = config(["0", "0", "0", "*", "*", "0-4", "*", "366", "*"]);
    assert_eq!(Ok(at(2024, 12, 31, 0, 0, 0)), last.parse(&at(2021, 1, 1, 0, 0, 0)));
    let first = config(["0", "0", "0", "*", "*", "0-4", "*", "1", "*"]);
    assert_eq!(Ok(at(2025, 1, 1, 0, 0, 0)), first.parse(&at(2024, 1, 1, 0, 0, 0)));
}

#[test]
fn week_of_year_is_the_iso_week() {
    let c = config(["0", "0", "0", "*", "*", "0-4", "*", "*", "1"]);
    let found = c.parse(&at(2024, 6, 1, 0, 0, 0)).unwrap();
    let want = NaiveDate::from_isoywd_opt(2025, 1, chrono::Weekday::Mon).unwrap();
    assert_eq!(want.and_hms_opt(0, 0, 0).unwrap(), naive(&found));
    assert_eq!(at(2024, 12, 30, 0, 0, 0), found);
    let last = config(["0", "0", "0", "*", "*", "0-4", "*", "*", "53"]);
    assert_eq!(Ok(at(2026, 12, 28, 0, 0, 0)), last.parse(&at(2024, 6, 1, 0, 0, 0)));
}

#[test]
fn weekday_counts_from_sunday() {
    for (field, day) in [("0", 14), ("SUN", 14), ("1", 8), ("6", 13), ("sat", 13), ("3-4", 10)] {
        let c = config(["0", "0", "0", "*", "*", "0-4", field, "*", "*"]);
        assert_eq!(Ok(at(2024, 1, day, 0, 0, 0)), c.parse(&at(2024, 1, 7, 12, 0, 0)), "{}", field);
    }
}

#[test]
fn month_rolls_over_the_year() {
    let c = config(["0", "0", "0", "1", "1", "0-4", "*", "*", "*"]);
    assert_eq!(Ok(at(2025, 1, 1, 0, 0, 0)), c.parse(&at(2024, 1, 1, 0, 0, 0)));
    assert_eq!(Ok(at(2025, 1, 1, 0, 0, 0)), c.parse(&at(2024, 12, 31, 23, 59, 59)));
    let june = config(["30", "15", "6", "15", "6", "*", "*", "*", "*"]);
    assert_eq!(Ok(at(2024, 6, 15, 6, 15, 30)), june.parse(&at(2024, 1, 31, 23, 0, 0)));
    assert_eq!(Ok(at(2025, 6, 15, 6, 15, 30)), june.parse(&at(2024, 6, 15, 6, 15, 30)));
}

#[test]
fn horizon_is_ten_years_after_the_reference_year() {
    // The 29th of February falls on a Friday in 2036.
    let c = config(["0", "0", "0", "29", "2", "*", "FRI", "*", "*"]);
    assert_eq!(Ok(at(2036, 2, 29, 0, 0, 0)), c.parse(&at(2026, 1, 1, 0, 0, 0)));
    assert_eq!(Ok(at(2036, 2, 29, 0, 0, 0)), c.parse(&at(2026, 12, 31, 23, 59, 59)));
    assert_eq!(Err(ParseError::HorizonExceeded), c.parse(&at(2025, 12, 31, 23, 59, 59)));
    let s = c.compile().unwrap();
    assert_eq!(Ok(at(2036, 2, 29, 0, 0, 0)), s.next_after(2026, &at(2030, 5, 5, 5, 5, 5)));
    assert_eq!(
        Err(ParseError::HorizonExceeded),
        s.next_after(2025, &at(2030, 5, 5, 5, 5, 5))
    );
    assert_eq!(Err(ParseError::HorizonExceeded), s.next_after(2000, &at(2036, 2, 28, 0, 0, 0)));
}

#[test]
fn found_time_is_later_than_the_reference() {
    let c = config(["0/20", "5-10", "*", "*", "*", "0-4", "*", "*", "*"]);
    let mut t = at(2024, 2, 28, 23, 9, 50);
    for _ in 0..200 {
        let found = c.parse(&t).unwrap();
        assert!(naive(&found) > naive(&t));
        t = found;
    }
}

#[test]
fn searching_again_moves_on() {
    let c = config(["0", "30", "9", "*", "*", "*", "MON-FRI", "*", "*"]);
    let sets = sets_of(&c);
    let first = c.parse(&at(2024, 1, 8, 12, 0, 0)).unwrap();
    let second = c.parse(&first).unwrap();
    assert_eq!(at(2024, 1, 9, 9, 30, 0), first);
    assert_eq!(at(2024, 1, 10, 9, 30, 0), second);
    for t in [first, second] {
        let n = naive(&t);
        assert!(sets[0].contains(&(n.second() as usize)));
        assert!(sets[1].contains(&(n.minute() as usize)));
        assert!(sets[2].contains(&(n.hour() as usize)));
        assert!(sets[6].contains(&(n.weekday().num_days_from_sunday() as usize)));
    }
}

#[test]
fn searching_again_may_pass_the_horizon() {
    // After the Friday 29th of February of 2036 the next one is in 2064.
    let c = config(["0", "0", "0", "29", "2", "*", "FRI", "*", "*"]);
    let first = c.parse(&at(2026, 1, 1, 0, 0, 0)).unwrap();
    assert_eq!(at(2036, 2, 29, 0, 0, 0), first);
    assert_eq!(Err(ParseError::HorizonExceeded), c.parse(&first));
}

#[test]
fn first_mismatch_on_given_values() {
    let s = config(["0", "0", "8", "1-7", "3", "1", "2", "60-70", "9-10"]).compile().unwrap();
    let good = Reading {
        month: 3,
        day_of_month: 7,
        day_of_week: 2,
        day_of_year: 66,
        week_of_month: 1,
        week_of_year: 10,
        hour: 8,
        minute: 0,
        second: 0,
    };
    assert_eq!(None, s.first_mismatch(&good));
    assert_eq!(Some(Unit::Month), s.first_mismatch(&Reading { month: 4, ..good }));
    assert_eq!(Some(Unit::Day), s.first_mismatch(&Reading { day_of_month: 8, ..good }));
    assert_eq!(Some(Unit::Day), s.first_mismatch(&Reading { day_of_week: 3, ..good }));
    assert_eq!(Some(Unit::Day), s.first_mismatch(&Reading { day_of_year: 71, ..good }));
    assert_eq!(Some(Unit::Week), s.first_mismatch(&Reading { week_of_month: 0, ..good }));
    assert_eq!(Some(Unit::IsoWeek), s.first_mismatch(&Reading { week_of_year: 11, ..good }));
    assert_eq!(Some(Unit::Hour), s.first_mismatch(&Reading { hour: 9, ..good }));
    assert_eq!(Some(Unit::Minute), s.first_mismatch(&Reading { minute: 1, ..good }));
    assert_eq!(Some(Unit::Second), s.first_mismatch(&Reading { second: 59, ..good }));
    // The coarsest failing field decides.
    let bad = Reading { day_of_week: 3, week_of_month: 0, second: 1, ..good };
    assert_eq!(Some(Unit::Day), s.first_mismatch(&bad));
    assert_eq!(Some(Unit::Week), s.first_mismatch(&Reading { day_of_week: 2, ..bad }));
    assert_eq!(Some(Unit::Month), s.first_mismatch(&Reading { month: 366, ..bad }));
}

#[test]
fn reading_of_a_time() {
    let r = at(2024, 12, 30, 23, 58, 57).reading();
    let want = Reading {
        month: 12,
        day_of_month: 30,
        day_of_week: 1,
        day_of_year: 365,
        week_of_month: 4,
        week_of_year: 1,
        hour: 23,
        minute: 58,
        second: 57,
    };
    assert_eq!(want, r);
    let r = at(2023, 1, 1, 0, 0, 0).reading();
    assert_eq!((0, 1, 0, 52), (r.day_of_week, r.day_of_year, r.week_of_month, r.week_of_year));
    let r = at(2020, 12, 31, 0, 0, 0).reading();
    assert_eq!((4, 366, 4, 53), (r.day_of_week, r.day_of_year, r.week_of_month, r.week_of_year));
}

#[test]
fn days_to_the_next_monday() {
    let want = [1, 7, 6, 5, 4, 3, 2];
    for weekday in 0..7u32 {
        assert_eq!(want[weekday as usize], days_to_next_monday(weekday));
    }
}

#[test]
fn field_errors_come_in_the_order_the_fields_are_read() {
    let c = config(["x", "61", "5-3", "*", "13", "*", "*", "*", "*"]);
    assert_eq!(Err(ParseError::InvalidValue), c.parse(&at(2024, 1, 8, 12, 0, 0)));
    let c = config(["x", "61", "5-3", "*", "*", "*", "*", "*", "*"]);
    assert_eq!(Err(ParseError::InvalidRange), c.parse(&at(2024, 1, 8, 12, 0, 0)));
    let c = config(["x", "61", "*", "*", "*", "*", "*", "*", "*"]);
    assert_eq!(Err(ParseError::InvalidValue), c.parse(&at(2024, 1, 8, 12, 0, 0)));
    let c = config(["x", "*", "*", "*", "*", "*", "*", "*", "*"]);
    assert_eq!(
        Err(ParseError::ParseIntError(timer_schedule::IntErrorKind::InvalidDigit)),
        c.parse(&at(2024, 1, 8, 12, 0, 0))
    );
    let c = config(["*", "*", "*", "*", "*", "5", "*", "*", "*"]);
    assert_eq!(Err(ParseError::InvalidValue), c.parse(&at(2024, 1, 8, 12, 0, 0)));
    let c = config(["*", "*", "*", "*", "*", "*", "*", "367", "*"]);
    assert_eq!(Err(ParseError::InvalidValue), c.parse(&at(2024, 1, 8, 12, 0, 0)));
}

#[test]
fn advance_agrees_with_the_calendar() {
    let mut times = vec![
        at(2024, 2, 28, 23, 59, 59),
        at(2023, 2, 28, 23, 59, 59),
        at(2024, 12, 31, 23, 59, 59),
        at(2100, 2, 28, 12, 30, 30),
        at(2000, 2, 29, 0, 0, 0),
        at(1969, 12, 28, 23, 0, 59),
        at(-1, 12, 31, 23, 59, 0),
        at(2024, 4, 30, 5, 59, 59),
        at(2024, 1, 7, 10, 10, 10),
    ];
    let mut n = naive(&at(2019, 12, 25, 22, 58, 57));
    for _ in 0..400 {
        times.push(local(&n));
        n = n + Duration::seconds(86_400 * 3 + 3_600 + 61);
    }
    for t in &times {
        let n = naive(t);
        let next_month = if n.month() == 12 {
            NaiveDate::from_ymd_opt(n.year() + 1, 1, 1)
        } else {
            NaiveDate::from_ymd_opt(n.year(), n.month() + 1, 1)
        };
        let hour_on = n + Duration::hours(1);
        let minute_on = n + Duration::minutes(1);
        let to_monday = 7 - n.weekday().num_days_from_monday() as i64;
        let want = [
            (Unit::Month, next_month.unwrap().and_hms_opt(0, 0, 0).unwrap()),
            (Unit::Day, start_of_day(n + Duration::days(1))),
            (Unit::Week, start_of_day(n + Duration::days(7))),
            (Unit::IsoWeek, start_of_day(n + Duration::days(to_monday))),
            (Unit::Hour, hour_on.date().and_hms_opt(hour_on.hour(), 0, 0).unwrap()),
            (
                Unit::Minute,
                minute_on.date().and_hms_opt(minute_on.hour(), minute_on.minute(), 0).unwrap(),
            ),
            (Unit::Second, n + Duration::seconds(1)),
        ];
        for (unit, expected) in want {
            let got = t.advance(unit);
            assert_eq!(expected, naive(&got), "{:?} {:?}", t, unit);
            assert!(got.is_valid());
            if unit == Unit::IsoWeek {
                assert_eq!(chrono::Weekday::Mon, naive(&got).weekday());
            }
        }
    }
}

#[test]
fn due_unit_names_the_first_field_that_fails() {
    let t = at(2024, 1, 9, 8, 0, 0);
    let cases = [
        (["0", "0", "8", "*", "*", "*", "2", "*", "*"], None),
        (["0", "0", "8", "*", "2", "*", "2", "*", "*"], Some(Unit::Month)),
        (["0", "0", "8", "10", "*", "*", "2", "*", "*"], Some(Unit::Day)),
        (["0", "0", "8", "*", "*", "*", "3", "*", "*"], Some(Unit::Day)),
        (["0", "0", "8", "*", "*", "*", "2", "10", "*"], Some(Unit::Day)),
        (["0", "0", "8", "*", "*", "2", "2", "*", "*"], Some(Unit::Week)),
        (["0", "0", "8", "*", "*", "*", "2", "*", "3"], Some(Unit::IsoWeek)),
        (["0", "0", "9", "*", "*", "*", "2", "*", "*"], Some(Unit::Hour)),
        (["0", "1", "8", "*", "*", "*", "2", "*", "*"], Some(Unit::Minute)),
        (["1", "0", "8", "*", "*", "*", "2", "*", "*"], Some(Unit::Second)),
        (["1", "1", "9", "10", "2", "2", "3", "10", "3"], Some(Unit::Month)),
        (["1", "1", "9", "*", "*", "2", "2", "9", "3"], Some(Unit::Week)),
    ];
    for (fields, want) in cases {
        let s = config(fields).compile().unwrap();
        assert_eq!(want, s.due_unit(&t), "{:?}", fields);
    }
}

#[test]
fn search_agrees_with_the_reference_walk() {
    let configs = [
        ["0", "0", "8", "*", "*", "*", "2", "*", "*"],
        ["*", "*", "*", "*", "*", "*", "*", "*", "*"],
        ["0/15", "0/7", "6-18", "*", "*", "0-4", "MON-FRI", "*", "*"],
        ["59", "59", "23", "31", "12", "*", "*", "*", "*"],
        ["0", "0", "0", "29", "2", "*", "*", "*", "*"],
        ["0", "0", "0", "29", "2", "*", "SUN", "*", "*"],
        ["0", "0", "0", "29", "2", "*", "FRI", "*", "*"],
        ["0", "0", "0", "31", "2", "*", "*", "*", "*"],
        ["30", "*", "12", "*", "1/3", "2-3", "*", "*", "10/10"],
        ["0", "0", "0", "*", "*", "0-4", "*", "366", "*"],
        ["0", "0", "0", "*", "*", "0-4", "*", "1,100,200,300", "*"],
        ["0", "0", "0", "*", "*", "0-4", "*", "*", "1,53"],
        ["5", "4", "3", "1-7", "*", "1", "SAT", "*", "*"],
        ["*", "30", "*", "13", "*", "*", "FRI", "*", "*"],
        ["0", "0", "12", "*", "6", "4", "*", "170-181", "25-27"],
    ];
    let starts = [
        at(2024, 1, 8, 12, 0, 0),
        at(2023, 12, 31, 23, 59, 59),
        at(2024, 2, 28, 23, 59, 59),
        at(2019, 6, 15, 3, 4, 5),
        at(2096, 2, 29, 0, 0, 0),
        at(1970, 1, 1, 0, 0, 0),
        at(2025, 12, 31, 23, 59, 59),
    ];
    for fields in configs {
        let c = config(fields);
        let sets = sets_of(&c);
        for start in &starts {
            let mut t = *start;
            for _ in 0..5 {
                let want = reference_walk(&sets, &naive(&t));
                let got = c.parse(&t);
                match want {
                    Some(n) => assert_eq!(Ok(local(&n)), got, "{:?} from {:?}", fields, t),
                    None => {
                        assert_eq!(Err(ParseError::HorizonExceeded), got, "{:?} {:?}", fields, t);
                        break;
                    }
                }
                t = got.unwrap();
            }
        }
    }
}

#[test]
fn times_are_checked_against_the_calendar() {
    for year in [-4, 1, 1900, 2000, 2023, 2024, 2100] {
        for month in 0..=13u32 {
            for day in 0..=32u32 {
                let want = NaiveDate::from_ymd_opt(year, month, day).is_some();
                assert_eq!(want, Date::new(year, month, day).is_some());
                assert_eq!(want, Date { year, month, day }.is_valid());
                assert_eq!(want, LocalTime::new(year, month, day, 23, 59, 59).is_some());
            }
        }
    }
    assert!(LocalTime::new(2024, 1, 1, 24, 0, 0).is_none());
    assert!(LocalTime::new(2024, 1, 1, 0, 60, 0).is_none());
    assert!(LocalTime::new(2024, 1, 1, 0, 0, 60).is_none());
    assert!(Date::new(262_142, 12, 31).is_some());
    assert!(Date::new(262_143, 1, 1).is_none());
    assert!(Date::new(-262_143, 1, 1).is_some());
    assert!(Date::new(-262_144, 12, 31).is_none());
    assert_eq!(NaiveDate::MAX, NaiveDate::from_ymd_opt(262_142, 12, 31).unwrap());
    assert_eq!(NaiveDate::MIN, NaiveDate::from_ymd_opt(-262_143, 1, 1).unwrap());
}
