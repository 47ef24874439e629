use chrono::{Datelike, Days, NaiveDate};
use timeblocks::calendar::CalendarDate;

fn ymd(d: &CalendarDate) -> (i32, u32, u32) {
    (d.year(), d.month(), d.day())
}

fn naive(d: &CalendarDate) -> NaiveDate {
    NaiveDate::from_ymd_opt(d.year(), d.month(), d.day()).unwrap()
}

fn leap(y: i64) -> bool {
    (y.rem_euclid(4) == 0 && y.rem_euclid(100) != 0) || y.rem_euclid(400) == 0
}

fn days_in_month(y: i64, m: i64) -> i64 {
    match m {
        2 => if leap(y) { 29 } else { 28 },
        4 | 6 | 9 | 11 => 30,
        _ => 31,
    }
}

/// The day count from 1 January of year 1 (day 1), written as the
/// library's specification writes it.
fn day_number(y: i64, m: i64, d: i64) -> i64 {
    let p = y - 1;
    let before_year = 365 * p + p.div_euclid(4) - p.div_euclid(100) + p.div_euclid(400);
    let table = [0, 31, 59, 90, 120, 151, 181, 212, 243, 273, 304, 334];
    let mut before_month = table[(m - 1) as usize];
    if m > 2 && leap(y) {
        before_month += 1;
    }
    before_year + before_month + d
}

fn year_text(y: i64) -> String {
    if (0..=9999).contains(&y) {
        format!("{:04}", y)
    } else if y > 0 {
        format!("+{:04}", y)
    } else {
        format!("-{:04}", -y)
    }
}

fn sample_years() -> Vec<i32> {
    let mut v: Vec<i32> = vec![
        -262143, -262142, -10001, -10000, -9999, -401, -400, -101, -100, -5, -4, -1, 0, 1, 4, 99,
        100, 400, 1582, 1900, 1970, 2000, 2023, 2024, 2100, 9999, 10000, 12345, 262141, 262142,
    ];
    v.sort();
    v
}

#[test]
fn validity_matches_chrono() {
    for y in sample_years().into_iter().chain([262143, -262144, i32::MAX, i32::MIN]) {
        for m in 0..=13u32 {
            for d in 0..=32u32 {
                let ours = CalendarDate::new(y, m, d);
                let theirs = NaiveDate::from_ymd_opt(y, m, d);
                assert_eq!(ours.is_some(), theirs.is_some(), "{} {} {}", y, m, d);
                if let Some(date) = ours {
                    assert_eq!(ymd(&date), (y, m, d));
                }
                let spec_valid = (-262143..=262142).contains(&(y as i64))
                    && (1..=12).contains(&m)
                    && d >= 1
                    && (d as i64) <= days_in_month(y as i64, m as i64);
                assert_eq!(ours.is_some(), spec_valid, "{} {} {}", y, m, d);
            }
        }
    }
}

#[test]
fn weekday_follows_day_count() {
    for y in sample_years() {
        for m in 1..=12u32 {
            for d in 1..=days_in_month(y as i64, m as i64) as u32 {
                let date = CalendarDate::new(y, m, d).unwrap();
                let w = date.days_from_monday();
                assert_eq!(w, naive(&date).weekday().num_days_from_monday());
                let expected = (day_number(y as i64, m as i64, d as i64) - 1).rem_euclid(7);
                assert_eq!(w as i64, expected, "{} {} {}", y, m, d);
            }
        }
    }
}

#[test]
fn known_weekdays() {
    // 2024-04-10 was a Wednesday, 0001-01-01 a Monday, 2000-01-01 a Saturday.
    assert_eq!(CalendarDate::new(2024, 4, 10).unwrap().days_from_monday(), 2);
    assert_eq!(CalendarDate::new(1, 1, 1).unwrap().days_from_monday(), 0);
    assert_eq!(CalendarDate::new(2000, 1, 1).unwrap().days_from_monday(), 5);
}

#[test]
fn text_matches_chrono_display() {
    for y in sample_years() {
        for (m, d) in [(1u32, 1u32), (2, 28), (12, 31), (10, 5)] {
            let date = CalendarDate::new(y, m, d).unwrap();
            let text = date.to_text();
            assert_eq!(text, naive(&date).to_string());
            assert_eq!(text, format!("{}-{:02}-{:02}", year_text(y as i64), m, d));
        }
    }
    assert_eq!(CalendarDate::new(2024, 4, 10).unwrap().to_text(), "2024-04-10");
    assert_eq!(CalendarDate::new(-5, 3, 1).unwrap().to_text(), "-0005-03-01");
    assert_eq!(CalendarDate::new(12345, 3, 1).unwrap().to_text(), "+12345-03-01");
}

#[test]
fn next_and_previous_days() {
    let cases = [
        ((2024, 2, 28), Some((2024, 2, 29))),
        ((2023, 2, 28), Some((2023, 3, 1))),
        ((2024, 12, 31), Some((2025, 1, 1))),
        ((2024, 4, 30), Some((2024, 5, 1))),
        ((262142, 12, 31), None),
    ];
    for ((y, m, d), next) in cases {
        let date = CalendarDate::new(y, m, d).unwrap();
        assert_eq!(date.succ().map(|n| ymd(&n)), next);
    }
    let d = CalendarDate::new(2024, 3, 1).unwrap();
    assert_eq!(d.sub_days(1).map(|p| ymd(&p)), Some((2024, 2, 29)));
    assert_eq!(d.sub_days(0).map(|p| ymd(&p)), Some((2024, 3, 1)));
    assert_eq!(d.sub_days(366).map(|p| ymd(&p)), Some((2023, 3, 1)));
    assert!(d.sub_days(u64::MAX).is_none());
    let first = CalendarDate::new(-262143, 1, 1).unwrap();
    assert!(first.sub_days(1).is_none());
    for (y, m, dd) in [(2024, 1, 1), (2023, 3, 1), (2000, 3, 1), (1900, 3, 1)] {
        let date = CalendarDate::new(y, m, dd).unwrap();
        for n in 0..10u64 {
            let ours = date.sub_days(n).map(|p| ymd(&p));
            let theirs = naive(&date).checked_sub_days(Days::new(n)).map(|p| (p.year(), p.month(), p.day()));
            assert_eq!(ours, theirs);
        }
    }
}

#[test]
fn week_starts_on_monday() {
    // Wednesday 2024-04-10 belongs to the week of Monday 2024-04-08.
    let wed = CalendarDate::new(2024, 4, 10).unwrap();
    assert_eq!(ymd(&wed.week_start()), (2024, 4, 8));
    let mon = CalendarDate::new(2024, 4, 8).unwrap();
    assert_eq!(ymd(&mon.week_start()), (2024, 4, 8));
    let sun = CalendarDate::new(2024, 3, 3).unwrap();
    assert_eq!(ymd(&sun.week_start()), (2024, 2, 26));
    for m in 1..=12u32 {
        for d in 1..=28u32 {
            let date = CalendarDate::new(2025, m, d).unwrap();
            let start = date.week_start();
            assert_eq!(start.days_from_monday(), 0);
            let gap = naive(&date).signed_duration_since(naive(&start)).num_days();
            assert!((0..=6).contains(&gap));
        }
    }
}

