use chrono::{Datelike, NaiveDate, Timelike};
use pomodoro::calendar::{Timestamp, MAX_DAY, MIN_DAY, SECONDS_PER_DAY};

#[test]
fn bounds_are_the_first_and_last_day_of_four_digit_years() {
    assert_eq!(NaiveDate::from_ymd_opt(1, 1, 1).unwrap().num_days_from_ce(), MIN_DAY);
    assert_eq!(NaiveDate::from_ymd_opt(9999, 12, 31).unwrap().num_days_from_ce(), MAX_DAY);
    assert_eq!(SECONDS_PER_DAY, 24 * 60 * 60);
}

#[test]
fn new_accepts_exactly_the_valid_readings() {
    assert!(Timestamp::new(MIN_DAY, 0).is_some());
    assert!(Timestamp::new(MAX_DAY, 86_399).is_some());
    assert!(Timestamp::new(MIN_DAY - 1, 0).is_none());
    assert!(Timestamp::new(MAX_DAY + 1, 0).is_none());
    assert!(Timestamp::new(738_886, 86_400).is_none());
    assert!(Timestamp::new(0, 0).is_none());
    assert!(Timestamp::new(i32::MIN, u32::MAX).is_none());
    let t = Timestamp::new(738_886, 37_800).unwrap();
    assert_eq!(t.day(), 738_886);
    assert_eq!(t.second(), 37_800);
}

#[test]
fn clamped_moves_each_part_to_its_nearest_bound() {
    assert_eq!(Timestamp::clamped(0, 5), Timestamp::new(MIN_DAY, 5).unwrap());
    assert_eq!(Timestamp::clamped(i32::MIN, 86_400), Timestamp::new(MIN_DAY, 86_399).unwrap());
    assert_eq!(Timestamp::clamped(i32::MAX, u32::MAX), Timestamp::new(MAX_DAY, 86_399).unwrap());
    assert_eq!(Timestamp::clamped(738_886, 10), Timestamp::new(738_886, 10).unwrap());
}

#[test]
fn now_is_a_valid_reading_close_to_the_clock() {
    let before = chrono::Local::now().naive_local();
    let now = Timestamp::now();
    let after = chrono::Local::now().naive_local();
    assert!(Timestamp::new(now.day(), now.second()).is_some());
    assert!(before.date().num_days_from_ce() <= now.day());
    assert!(now.day() <= after.date().num_days_from_ce());
    if before.date() == after.date() {
        assert!(before.time().num_seconds_from_midnight() <= now.second());
        assert!(now.second() <= after.time().num_seconds_from_midnight());
    }
}

#[test]
fn readings_are_ordered_by_day_then_second() {
    let a = Timestamp::new(738_886, 100).unwrap();
    let b = Timestamp::new(738_886, 101).unwrap();
    let c = Timestamp::new(738_887, 0).unwrap();
    assert!(a.is_before(&b));
    assert!(b.is_before(&c));
    assert!(a.is_before(&c));
    assert!(!b.is_before(&a));
    assert!(!c.is_before(&a));
    assert!(!a.is_before(&a));
}

#[test]
fn text_of_a_reading_is_date_and_time() {
    let day = NaiveDate::from_ymd_opt(2024, 1, 15).unwrap().num_days_from_ce();
    let t = Timestamp::new(day, 10 * 3600 + 30 * 60 + 5).unwrap();
    assert_eq!(t.to_text(), "2024-01-15 10:30:05");
    assert_eq!(Timestamp::new(MIN_DAY, 0).unwrap().to_text(), "0001-01-01 00:00:00");
    assert_eq!(Timestamp::new(MAX_DAY, 86_399).unwrap().to_text(), "9999-12-31 23:59:59");
}

#[test]
fn parse_reads_back_what_to_text_writes() {
    let day = NaiveDate::from_ymd_opt(2015, 9, 5).unwrap().num_days_from_ce();
    let t = Timestamp::parse("2015-09-05 23:56:04").unwrap();
    assert_eq!(t.day(), day);
    assert_eq!(t.second(), 23 * 3600 + 56 * 60 + 4);
    for &(d, s) in &[(MIN_DAY, 0u32), (738_886, 86_399), (MAX_DAY, 1)] {
        let t = Timestamp::new(d, s).unwrap();
        assert_eq!(Timestamp::parse(&t.to_text()), Some(t));
    }
}

#[test]
fn parse_rejects_what_is_no_reading() {
    assert_eq!(Timestamp::parse(""), None);
    assert_eq!(Timestamp::parse("2024-01-15"), None);
    assert_eq!(Timestamp::parse("2024-01-15 24:00:00"), None);
    assert_eq!(Timestamp::parse("2024-02-30 10:00:00"), None);
    assert_eq!(Timestamp::parse("yesterday"), None);
    // parses, but lies outside the valid range
    assert_eq!(Timestamp::parse("0000-12-31 10:00:00"), None);
    assert_eq!(Timestamp::parse("+10000-01-01 00:00:00"), None);
}
