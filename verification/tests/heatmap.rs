use chrono::{Datelike, NaiveDate, Weekday};
use pomodoro::app::PomodoroMode;
use pomodoro::calendar::Timestamp;
use pomodoro::db::Database;
use pomodoro::heatmap::{
    find_max_minutes, get_intensity_char, heatmap_grid, heatmap_on, heatmap_today, intensity_tier, month_labels,
    month_name, month_of_day, tier_glyph, whole_minutes, HeatmapCell, IntensityTier,
};

fn day(year: i32, month: u32, dom: u32) -> i32 {
    NaiveDate::from_ymd_opt(year, month, dom).unwrap().num_days_from_ce()
}

fn noon(d: i32) -> Timestamp {
    Timestamp::new(d, 12 * 3600).unwrap()
}

fn cells(weeks: &Vec<Vec<Option<HeatmapCell>>>) -> Vec<HeatmapCell> {
    weeks.iter().flatten().filter_map(|c| *c).collect()
}

#[test]
fn single_busy_day_is_max_and_all_others_are_inactive() {
    let today = day(2024, 7, 3);
    let busy = day(2024, 5, 20);
    let grid = heatmap_grid(&vec![(busy, 120 * 60)], &noon(today));
    assert_eq!(grid.max_minutes, 120);
    let all = cells(&grid.weeks);
    assert!(all.len() > 180);
    for cell in &all {
        if cell.day == busy {
            assert_eq!(cell.minutes, 120);
            assert_eq!(cell.tier, IntensityTier::Max);
        } else {
            assert_eq!(cell.minutes, 0);
            assert_eq!(cell.tier, IntensityTier::Inactive);
        }
    }
    assert_eq!(all.iter().filter(|c| c.day == busy).count(), 1);
}

#[test]
fn tiers_change_at_a_quarter_a_half_and_three_quarters() {
    assert_eq!(intensity_tier(0, 100), IntensityTier::Inactive);
    assert_eq!(intensity_tier(1, 100), IntensityTier::Low);
    assert_eq!(intensity_tier(24, 100), IntensityTier::Low);
    assert_eq!(intensity_tier(25, 100), IntensityTier::Medium);
    assert_eq!(intensity_tier(49, 100), IntensityTier::Medium);
    assert_eq!(intensity_tier(50, 100), IntensityTier::High);
    assert_eq!(intensity_tier(74, 100), IntensityTier::High);
    assert_eq!(intensity_tier(75, 100), IntensityTier::Max);
    assert_eq!(intensity_tier(100, 100), IntensityTier::Max);
    assert_eq!(intensity_tier(1, 1), IntensityTier::Max);
    assert_eq!(intensity_tier(1, 3), IntensityTier::Medium);
    assert_eq!(intensity_tier(1, 4), IntensityTier::Medium);
    assert_eq!(intensity_tier(1, 5), IntensityTier::Low);
    assert_eq!(intensity_tier(i64::MAX, i64::MAX), IntensityTier::Max);
    assert_eq!(intensity_tier(i64::MAX / 4, i64::MAX), IntensityTier::Low);
    assert_eq!(intensity_tier(-5, 100), IntensityTier::Low);
}

#[test]
fn glyphs_merge_the_two_upper_tiers() {
    assert_eq!(tier_glyph(IntensityTier::Inactive), "░");
    assert_eq!(tier_glyph(IntensityTier::Low), "▒");
    assert_eq!(tier_glyph(IntensityTier::Medium), "▓");
    assert_eq!(tier_glyph(IntensityTier::High), "█");
    assert_eq!(tier_glyph(IntensityTier::Max), "█");
    assert_eq!(get_intensity_char(0, 60), ("░", IntensityTier::Inactive));
    assert_eq!(get_intensity_char(10, 60), ("▒", IntensityTier::Low));
    assert_eq!(get_intensity_char(20, 60), ("▓", IntensityTier::Medium));
    assert_eq!(get_intensity_char(40, 60), ("█", IntensityTier::High));
    assert_eq!(get_intensity_char(60, 120).0, get_intensity_char(120, 120).0);
    assert_eq!(get_intensity_char(60, 120).1, IntensityTier::High);
    assert_eq!(get_intensity_char(120, 120).1, IntensityTier::Max);
    assert_ne!(get_intensity_char(59, 120).0, get_intensity_char(60, 120).0);
    assert_eq!(get_intensity_char(50, 60), ("█", IntensityTier::Max));
}

#[test]
fn minutes_round_towards_zero() {
    assert_eq!(whole_minutes(0), 0);
    assert_eq!(whole_minutes(59), 0);
    assert_eq!(whole_minutes(60), 1);
    assert_eq!(whole_minutes(7199), 119);
    assert_eq!(whole_minutes(-59), 0);
    assert_eq!(whole_minutes(-60), -1);
    assert_eq!(whole_minutes(-61), -1);
    assert_eq!(whole_minutes(i64::MAX), i64::MAX / 60);
    assert_eq!(whole_minutes(i64::MIN), i64::MIN / 60);
}

#[test]
fn max_minutes_is_at_least_one_and_looks_only_at_the_window() {
    assert_eq!(find_max_minutes(&vec![], 10, 20), 1);
    assert_eq!(find_max_minutes(&vec![(12, 59)], 10, 20), 1);
    assert_eq!(find_max_minutes(&vec![(12, 600), (15, 6000), (21, 60_000), (9, 90_000)], 10, 20), 100);
    assert_eq!(find_max_minutes(&vec![(10, 120), (20, 180)], 10, 20), 3);
    assert_eq!(find_max_minutes(&vec![(12, -6000)], 10, 20), 1);
    assert_eq!(find_max_minutes(&vec![(12, 6000), (13, 120), (12, 60)], 10, 20), 2);
}

#[test]
fn grid_starts_on_the_monday_on_or_before_the_window() {
    for today in [day(2024, 7, 3), day(2024, 6, 30), day(2024, 12, 30), day(2023, 1, 1), day(2024, 2, 29)] {
        let grid = heatmap_grid(&vec![], &noon(today));
        let first = grid.weeks[0][0].unwrap().day;
        let monday = NaiveDate::from_num_days_from_ce_opt(first).unwrap();
        assert_eq!(monday.weekday(), Weekday::Mon);
        assert!(first <= today - 180);
        assert!(today - 180 - first < 7);
        assert_eq!(grid.weeks.len() as i32, (today - first) / 7 + 1);
        let mut expected = first;
        for week in &grid.weeks {
            assert_eq!(week.len(), 7);
            for place in week {
                match place {
                    Some(cell) => {
                        assert_eq!(cell.day, expected);
                        assert!(cell.day <= today);
                    }
                    None => assert!(expected > today),
                }
                expected += 1;
            }
        }
        assert!(expected > today);
        assert_eq!(cells(&grid.weeks).last().unwrap().day, today);
    }
}

#[test]
fn grid_on_a_monday_window_start_begins_that_day() {
    // 2024-01-01 is a Monday
    let today = day(2024, 1, 1) + 180;
    let grid = heatmap_grid(&vec![], &noon(today));
    assert_eq!(grid.weeks[0][0].unwrap().day, day(2024, 1, 1));
    assert_eq!(grid.max_minutes, 1);
}

#[test]
fn grid_near_the_first_day_of_the_calendar() {
    let grid = heatmap_grid(&vec![(1, 600), (-3, 6000)], &noon(3));
    let first = grid.weeks[0][0].unwrap().day;
    assert!(first <= 3 - 180);
    assert!(3 - 180 - first < 7);
    assert_eq!(NaiveDate::from_num_days_from_ce_opt(first).unwrap().weekday(), Weekday::Mon);
    assert_eq!(grid.weeks.len() as i32, (3 - first) / 7 + 1);
    assert_eq!(grid.max_minutes, 100);
    let all = cells(&grid.weeks);
    assert_eq!(all.last().unwrap().day, 3);
    let find = |d: i32| *all.iter().find(|c| c.day == d).unwrap();
    assert_eq!(find(1), HeatmapCell { day: 1, minutes: 10, tier: IntensityTier::Low });
    assert_eq!(find(-3), HeatmapCell { day: -3, minutes: 100, tier: IntensityTier::Max });
    assert_eq!(find(3), HeatmapCell { day: 3, minutes: 0, tier: IntensityTier::Inactive });
    assert_eq!(find(0).tier, IntensityTier::Inactive);
}

#[test]
fn grid_starts_on_a_monday_for_every_day_of_a_year() {
    for today in 1..=400 {
        let grid = heatmap_grid(&vec![], &noon(today));
        let first = grid.weeks[0][0].unwrap().day;
        assert_eq!(NaiveDate::from_num_days_from_ce_opt(first).unwrap().weekday(), Weekday::Mon);
        assert!(first <= today - 180 && today - 180 - first < 7);
    }
}

#[test]
fn the_last_row_of_a_day_counts() {
    let today = day(2024, 7, 3);
    let grid = heatmap_grid(&vec![(today, 6000), (today - 1, 60), (today, 120)], &noon(today));
    let all = cells(&grid.weeks);
    assert_eq!(*all.last().unwrap(), HeatmapCell { day: today, minutes: 2, tier: IntensityTier::Max });
    assert_eq!(all[all.len() - 2], HeatmapCell { day: today - 1, minutes: 1, tier: IntensityTier::High });
    assert_eq!(grid.max_minutes, 2);
}

#[test]
fn cells_are_classified_against_the_busiest_day() {
    let today = day(2024, 7, 3);
    let data = vec![(today - 3, 100 * 60), (today - 2, 10 * 60 + 59), (today - 1, 50 * 60), (today, 75 * 60)];
    let grid = heatmap_grid(&data, &noon(today));
    assert_eq!(grid.max_minutes, 100);
    let all = cells(&grid.weeks);
    let find = |d: i32| *all.iter().find(|c| c.day == d).unwrap();
    assert_eq!(find(today - 3), HeatmapCell { day: today - 3, minutes: 100, tier: IntensityTier::Max });
    assert_eq!(find(today - 2), HeatmapCell { day: today - 2, minutes: 10, tier: IntensityTier::Low });
    assert_eq!(find(today - 1), HeatmapCell { day: today - 1, minutes: 50, tier: IntensityTier::High });
    assert_eq!(find(today), HeatmapCell { day: today, minutes: 75, tier: IntensityTier::Max });
    assert_eq!(find(today - 4).tier, IntensityTier::Inactive);
}

#[test]
fn heatmap_of_a_store_counts_work_sessions_only() {
    let mut db = Database::new();
    let today = day(2024, 7, 3);
    let t = noon(today - 10);
    db.save_session(&t, &t, 3600, "Work", PomodoroMode::Work);
    db.save_session(&t, &t, 3600, "Study", PomodoroMode::Work);
    db.save_session(&t, &t, 600, "Work", PomodoroMode::Break);
    let old = noon(today - 181);
    db.save_session(&old, &old, 36_000, "Work", PomodoroMode::Work);
    let grid = heatmap_on(&db, &noon(today));
    assert_eq!(grid.max_minutes, 120);
    let all = cells(&grid.weeks);
    for cell in &all {
        if cell.day == today - 10 {
            assert_eq!((cell.minutes, cell.tier), (120, IntensityTier::Max));
        } else {
            assert_eq!((cell.minutes, cell.tier), (0, IntensityTier::Inactive));
        }
    }
}

#[test]
fn heatmap_of_an_overflowing_store_is_empty() {
    let mut db = Database::new();
    let today = day(2024, 7, 3);
    let t = noon(today);
    db.save_session(&t, &t, i64::MAX, "Work", PomodoroMode::Work);
    db.save_session(&t, &t, i64::MAX, "Work", PomodoroMode::Work);
    let grid = heatmap_on(&db, &t);
    assert_eq!(grid.max_minutes, 1);
    assert!(cells(&grid.weeks).iter().all(|c| c.tier == IntensityTier::Inactive));
}

#[test]
fn heatmap_by_the_clock_ends_today() {
    let mut db = Database::new();
    let now = Timestamp::now();
    db.save_session(&now, &now, 1500, "Work", PomodoroMode::Work);
    let grid = heatmap_today(&db);
    assert_eq!(grid.max_minutes, 25);
    let last = *cells(&grid.weeks).last().unwrap();
    assert_eq!(last.minutes, 25);
    assert_eq!(last.tier, IntensityTier::Max);
}

#[test]
fn month_labels_mark_the_weeks_where_a_month_begins() {
    let today = day(2024, 7, 3);
    let grid = heatmap_grid(&vec![], &noon(today));
    let labels = month_labels(&grid);
    assert_eq!(labels.len(), grid.weeks.len());
    let mut last = 0;
    for (week, label) in grid.weeks.iter().zip(labels.iter()) {
        let first = week[0].unwrap().day;
        let month = NaiveDate::from_num_days_from_ce_opt(first).unwrap().month();
        if month != last {
            assert_eq!(*label, month);
        } else {
            assert_eq!(*label, 0);
        }
        last = month;
    }
    let shown: Vec<u32> = labels.iter().copied().filter(|m| *m != 0).collect();
    assert_eq!(shown, vec![1, 2, 3, 4, 5, 6, 7]);
    assert_eq!(labels[0], 1);
}

#[test]
fn months_have_short_names() {
    let names: Vec<&str> = (0..=13).map(month_name).collect();
    assert_eq!(
        names,
        vec!["", "Jan", "Feb", "Mar", "Apr", "May", "Jun", "Jul", "Aug", "Sep", "Oct", "Nov", "Dec", ""]
    );
    assert_eq!(month_of_day(day(2024, 2, 29)), 2);
    assert_eq!(month_of_day(day(2023, 12, 31)), 12);
}
