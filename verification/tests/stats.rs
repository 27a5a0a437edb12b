use chrono::{Datelike, NaiveDate};
use pomodoro::app::PomodoroMode;
use pomodoro::calendar::{format_day, format_month, month_of, Timestamp};
use pomodoro::db::Database;
use pomodoro::stats::StatsError;

fn day(year: i32, month: u32, dom: u32) -> i32 {
    NaiveDate::from_ymd_opt(year, month, dom).unwrap().num_days_from_ce()
}

fn at(year: i32, month: u32, dom: u32, second: u32) -> Timestamp {
    Timestamp::new(day(year, month, dom), second).unwrap()
}

fn save(db: &mut Database, start: Timestamp, duration: i64, tag: &str, mode: PomodoroMode) {
    let end = Timestamp::clamped(start.day(), start.second() + 1);
    db.save_session(&start, &end, duration, tag, mode);
}

fn bucket(label: &str, total: i64) -> (String, i64) {
    (label.to_string(), total)
}

#[test]
fn weekly_total_leaves_out_break_sessions() {
    let mut db = Database::new();
    save(&mut db, at(2024, 3, 12, 9 * 3600), 1500, "Work", PomodoroMode::Work);
    save(&mut db, at(2024, 3, 12, 10 * 3600), 300, "Work", PomodoroMode::Break);
    let today = at(2024, 3, 12, 12 * 3600);
    assert_eq!(db.weekly_stats_on(None, &today), Ok(vec![bucket("2024-03-12", 1500)]));
    assert_eq!(db.weekly_stats_on(Some("Work"), &today), Ok(vec![bucket("2024-03-12", 1500)]));
    assert_eq!(db.get_monthly_stats(None), Ok(vec![bucket("2024-03", 1500)]));
    assert_eq!(db.total_on(&today), 1500);
}

#[test]
fn weekly_days_are_ascending_and_sparse() {
    let mut db = Database::new();
    save(&mut db, at(2024, 3, 12, 100), 1500, "Work", PomodoroMode::Work);
    save(&mut db, at(2024, 3, 9, 100), 600, "Study", PomodoroMode::Work);
    save(&mut db, at(2024, 3, 12, 5000), 900, "Study", PomodoroMode::Work);
    save(&mut db, at(2024, 3, 6, 100), 60, "Work", PomodoroMode::Work);
    let today = at(2024, 3, 13, 0);
    assert_eq!(
        db.weekly_stats_on(None, &today),
        Ok(vec![bucket("2024-03-06", 60), bucket("2024-03-09", 600), bucket("2024-03-12", 2400)])
    );
    assert_eq!(
        db.weekly_stats_on(Some("Study"), &today),
        Ok(vec![bucket("2024-03-09", 600), bucket("2024-03-12", 900)])
    );
    assert_eq!(db.weekly_stats_on(Some("Reading"), &today), Ok(vec![]));
}

#[test]
fn weekly_window_reaches_back_seven_days_and_ends_today() {
    let mut db = Database::new();
    save(&mut db, at(2024, 2, 29, 86_399), 100, "Work", PomodoroMode::Work);
    save(&mut db, at(2024, 3, 1, 0), 200, "Work", PomodoroMode::Work);
    save(&mut db, at(2024, 3, 8, 86_399), 400, "Work", PomodoroMode::Work);
    save(&mut db, at(2024, 3, 9, 0), 800, "Work", PomodoroMode::Work);
    let today = at(2024, 3, 8, 0);
    assert_eq!(db.weekly_stats_on(None, &today), Ok(vec![bucket("2024-03-01", 200), bucket("2024-03-08", 400)]));
}

#[test]
fn weekly_window_crosses_a_year_boundary() {
    let mut db = Database::new();
    save(&mut db, at(2023, 12, 30, 10), 300, "Work", PomodoroMode::Work);
    save(&mut db, at(2024, 1, 2, 10), 500, "Work", PomodoroMode::Work);
    let today = at(2024, 1, 3, 0);
    assert_eq!(db.weekly_stats_on(None, &today), Ok(vec![bucket("2023-12-30", 300), bucket("2024-01-02", 500)]));
}

#[test]
fn weekly_on_the_first_day_of_the_calendar() {
    let mut db = Database::new();
    save(&mut db, Timestamp::new(1, 0).unwrap(), 90, "Work", PomodoroMode::Work);
    let today = Timestamp::new(1, 50).unwrap();
    assert_eq!(db.weekly_stats_on(None, &today), Ok(vec![bucket("0001-01-01", 90)]));
}

#[test]
fn empty_log_gives_empty_summaries() {
    let db = Database::new();
    assert_eq!(db.weekly_stats_on(None, &at(2024, 3, 8, 0)), Ok(vec![]));
    assert_eq!(db.get_monthly_stats(None), Ok(vec![]));
    assert_eq!(db.get_monthly_stats(Some("Work")), Ok(vec![]));
    assert_eq!(db.heatmap_data_on(&at(2024, 3, 8, 0)), Ok(vec![]));
    assert_eq!(db.total_on(&at(2024, 3, 8, 0)), 0);
    assert_eq!(db.get_weekly_stats(None), Ok(vec![]));
    assert_eq!(db.get_heatmap_data(), Ok(vec![]));
    assert_eq!(db.get_total_today(), 0);
}

#[test]
fn summaries_by_the_clock_see_a_session_saved_now() {
    let mut db = Database::new();
    let now = Timestamp::now();
    db.save_session(&now, &now, 1500, "Work", PomodoroMode::Work);
    let weekly = db.get_weekly_stats(None).unwrap();
    assert_eq!(weekly.iter().map(|b| b.1).sum::<i64>(), 1500);
    let heat = db.get_heatmap_data().unwrap();
    assert_eq!(heat.iter().map(|r| r.1).sum::<i64>(), 1500);
}

#[test]
fn monthly_is_descending_and_capped_at_twelve() {
    let mut db = Database::new();
    for i in 0..15u32 {
        let year = 2023 + (i / 12) as i32;
        let month = i % 12 + 1;
        save(&mut db, at(year, month, 5, 0), 100 + i as i64, "Work", PomodoroMode::Work);
    }
    let months = db.get_monthly_stats(None).unwrap();
    assert_eq!(months.len(), 12);
    let labels: Vec<&str> = months.iter().map(|b| b.0.as_str()).collect();
    assert_eq!(
        labels,
        vec![
            "2024-03", "2024-02", "2024-01", "2023-12", "2023-11", "2023-10", "2023-09", "2023-08", "2023-07",
            "2023-06", "2023-05", "2023-04"
        ]
    );
    for pair in months.windows(2) {
        assert!(pair[0].0 > pair[1].0);
    }
    assert_eq!(months[0].1, 114);
    assert_eq!(months[11].1, 103);
}

#[test]
fn monthly_sums_within_a_month_and_filters_by_tag() {
    let mut db = Database::new();
    save(&mut db, at(2024, 2, 1, 0), 1500, "Work", PomodoroMode::Work);
    save(&mut db, at(2024, 2, 29, 86_399), 1500, "Study", PomodoroMode::Work);
    save(&mut db, at(2024, 3, 1, 0), 700, "Study", PomodoroMode::Work);
    save(&mut db, at(2024, 3, 2, 0), 300, "Study", PomodoroMode::Break);
    save(&mut db, at(2019, 7, 4, 0), 60, "Work", PomodoroMode::Work);
    assert_eq!(
        db.get_monthly_stats(None),
        Ok(vec![bucket("2024-03", 700), bucket("2024-02", 3000), bucket("2019-07", 60)])
    );
    assert_eq!(db.get_monthly_stats(Some("Study")), Ok(vec![bucket("2024-03", 700), bucket("2024-02", 1500)]));
    assert_eq!(db.get_monthly_stats(Some("Work")), Ok(vec![bucket("2024-02", 1500), bucket("2019-07", 60)]));
}

#[test]
fn a_total_beyond_64_bits_is_an_overflow_error() {
    let mut db = Database::new();
    save(&mut db, at(2024, 3, 12, 0), i64::MAX, "Work", PomodoroMode::Work);
    save(&mut db, at(2024, 3, 12, 10), 1, "Work", PomodoroMode::Work);
    let today = at(2024, 3, 12, 20);
    assert_eq!(db.weekly_stats_on(None, &today), Err(StatsError::TotalOverflow));
    assert_eq!(db.get_monthly_stats(None), Err(StatsError::TotalOverflow));
    assert_eq!(db.heatmap_data_on(&today), Err(StatsError::TotalOverflow));
    assert_eq!(db.total_on(&today), 0);
    // outside the window the day does not matter
    assert_eq!(db.weekly_stats_on(None, &at(2024, 3, 20, 0)), Ok(vec![]));
}

#[test]
fn totals_that_pass_through_an_overflow_still_fit() {
    let mut db = Database::new();
    save(&mut db, at(2024, 3, 12, 0), i64::MAX, "Work", PomodoroMode::Work);
    save(&mut db, at(2024, 3, 12, 10), i64::MAX, "Work", PomodoroMode::Work);
    save(&mut db, at(2024, 3, 12, 20), -i64::MAX, "Work", PomodoroMode::Work);
    let today = at(2024, 3, 12, 20);
    assert_eq!(db.weekly_stats_on(None, &today), Ok(vec![bucket("2024-03-12", i64::MAX)]));
    assert_eq!(db.get_monthly_stats(None), Ok(vec![bucket("2024-03", i64::MAX)]));
}

#[test]
fn heatmap_data_covers_the_last_180_days() {
    let mut db = Database::new();
    let today = at(2024, 7, 1, 0);
    let first = today.day() - 180;
    for d in [first - 1, first, first + 90, today.day(), today.day() + 1] {
        db.save_session(
            &Timestamp::new(d, 0).unwrap(),
            &Timestamp::new(d, 1).unwrap(),
            120,
            "Work",
            PomodoroMode::Work,
        );
    }
    db.save_session(
        &Timestamp::new(first, 5).unwrap(),
        &Timestamp::new(first, 6).unwrap(),
        30,
        "Study",
        PomodoroMode::Work,
    );
    assert_eq!(db.heatmap_data_on(&today), Ok(vec![(first, 150), (first + 90, 120), (today.day(), 120)]));
}

#[test]
fn labels_follow_the_civil_calendar() {
    assert_eq!(format_day(day(2024, 2, 29)), "2024-02-29");
    assert_eq!(format_day(day(1999, 12, 31)), "1999-12-31");
    assert_eq!(format_day(1), "0001-01-01");
    assert_eq!(format_day(3_652_059), "9999-12-31");
    assert_eq!(month_of(day(2024, 2, 29)), 2024 * 12 + 1);
    assert_eq!(format_month(2024 * 12 + 1), "2024-02");
    assert_eq!(format_month(12), "0001-01");
    assert_eq!(format_month(119_999), "9999-12");
    assert_eq!(format_month(11), "");
    assert_eq!(format_month(120_000), "");
    assert_eq!(format_day(0), "");
    assert_eq!(format_day(3_652_060), "");
    assert_eq!(format_day(i32::MIN), "");
    assert_eq!(month_of(0), 12);
    assert_eq!(month_of(i32::MAX), 12);
    assert_eq!(month_of(1), 12);
    assert_eq!(month_of(3_652_059), 119_999);
}

#[test]
fn the_total_over_all_tags_is_the_sum_of_the_totals_by_tag() {
    let mut db = Database::new();
    save(&mut db, at(2024, 3, 12, 100), 1500, "Work", PomodoroMode::Work);
    save(&mut db, at(2024, 3, 12, 200), 600, "Study", PomodoroMode::Work);
    save(&mut db, at(2024, 3, 12, 300), 900, "Study", PomodoroMode::Work);
    save(&mut db, at(2024, 3, 12, 400), 300, "Study", PomodoroMode::Break);
    save(&mut db, at(2024, 3, 12, 500), 45, "Reading", PomodoroMode::Work);
    let today = at(2024, 3, 12, 600);
    let all = db.weekly_stats_on(None, &today).unwrap();
    assert_eq!(all, vec![bucket("2024-03-12", 3045)]);
    let mut sum = 0;
    for tag in ["Work", "Study", "Reading", "Nothing"] {
        sum += db.weekly_stats_on(Some(tag), &today).unwrap().iter().map(|b| b.1).sum::<i64>();
    }
    assert_eq!(sum, 3045);
    let by_month: i64 = ["Work", "Study", "Reading"]
        .iter()
        .map(|tag| db.get_monthly_stats(Some(tag)).unwrap()[0].1)
        .sum();
    assert_eq!(by_month, db.get_monthly_stats(None).unwrap()[0].1);
}
