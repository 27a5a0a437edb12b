//! The activity heatmap: the last half year of work, one cell per day, laid
//! out in weeks that start on Monday, each day classified by how it compares
//! with the busiest day.

use std::collections::HashMap;
use vstd::prelude::*;
use vstd::std_specs::hash::*;
use crate::calendar::{
    civil_date, civil_of_day, weekday_from_monday, weekday_of_day, Timestamp, MAX_DAY, MIN_DAY,
};
use crate::db::{Database, Session};
use crate::stats::{
    active_days, day_active, day_total, day_totals_fit, lemma_active_days, lemma_inactive_day_total,
    HEATMAP_SPAN,
};

verus! {

/// How a day's activity compares with the busiest day of the window.
#[derive(Debug, Clone, Copy, PartialEq, Eq, Structural)]
pub enum IntensityTier {
    /// No minute of work.
    Inactive,
    /// Under a quarter of the maximum.
    Low,
    /// A quarter of the maximum or more, under half.
    Medium,
    /// Half of the maximum or more, under three quarters.
    High,
    /// Three quarters of the maximum or more.
    Max,
}

/// One day of the heatmap.
#[derive(Debug, Clone, Copy, PartialEq, Eq, Structural)]
pub struct HeatmapCell {
    pub day: i32,
    pub minutes: i64,
    pub tier: IntensityTier,
}

/// The heatmap: the weeks from the Monday on or before the start of the
/// window to the week of today. Each week holds seven places, Monday first;
/// a place after today is empty.
pub struct HeatmapGrid {
    pub max_minutes: i64,
    pub weeks: Vec<Vec<Option<HeatmapCell>>>,
}

/// Number of weeks by which a window start before the first day of the
/// calendar is moved on to ask for its weekday: the weekday is the same a
/// whole number of weeks later.
pub const WEEKS_AHEAD: i32 = 53;

/// Whole minutes in a number of seconds, rounded towards zero.
pub open spec fn minutes_of(seconds: int) -> int {
    if seconds >= 0 {
        seconds / 60
    } else {
        -((-seconds) / 60)
    }
}

/// The tier of a day with `minutes` minutes where the busiest day has
/// `max_minutes`: by the ratio of the two, compared with a quarter, a half
/// and three quarters.
pub open spec fn tier_of(minutes: int, max_minutes: int) -> IntensityTier {
    if minutes == 0 {
        IntensityTier::Inactive
    } else if 4 * minutes < max_minutes {
        IntensityTier::Low
    } else if 2 * minutes < max_minutes {
        IntensityTier::Medium
    } else if 4 * minutes < 3 * max_minutes {
        IntensityTier::High
    } else {
        IntensityTier::Max
    }
}

/// The glyph a tier is drawn with.
pub open spec fn glyph_of(tier: IntensityTier) -> Seq<char> {
    match tier {
        IntensityTier::Inactive => "░"@,
        IntensityTier::Low => "▒"@,
        IntensityTier::Medium => "▓"@,
        IntensityTier::High => "█"@,
        IntensityTier::Max => "█"@,
    }
}

/// The seconds that `data` holds for `day`: those of its last row for that
/// day, 0 where it has none.
pub open spec fn seconds_on(data: Seq<(i32, i64)>, day: int) -> int
    decreases data.len(),
{
    if data.len() == 0 {
        0
    } else if data.last().0 == day {
        data.last().1 as int
    } else {
        seconds_on(data.drop_last(), day)
    }
}

/// The rows as a map from day to seconds: each row sets its day, a later
/// row for the same day replacing an earlier one.
pub open spec fn seconds_map(data: Seq<(i32, i64)>) -> Map<i32, i64>
    decreases data.len(),
{
    if data.len() == 0 {
        Map::empty()
    } else {
        seconds_map(data.drop_last()).insert(data.last().0, data.last().1)
    }
}

/// The seconds that a map holds for `day`, 0 where it holds none.
pub open spec fn seconds_in(by_day: Map<i32, i64>, day: i32) -> i64 {
    if by_day.contains_key(day) {
        by_day[day]
    } else {
        0
    }
}

/// The most minutes that `by_day` holds for the day of any of `rows` from
/// `first` to `last`, and 1 where that is less.
pub open spec fn max_minutes_over(rows: Seq<(i32, i64)>, by_day: Map<i32, i64>, first: int, last: int) -> int
    decreases rows.len(),
{
    if rows.len() == 0 {
        1
    } else {
        let rest = max_minutes_over(rows.drop_last(), by_day, first, last);
        let here = minutes_of(seconds_in(by_day, rows.last().0) as int);
        if first <= rows.last().0 <= last && here > rest {
            here
        } else {
            rest
        }
    }
}

/// The most minutes that `data` holds for any day from `first` to `last`,
/// and 1 where that is less.
pub open spec fn max_minutes_in(data: Seq<(i32, i64)>, first: int, last: int) -> int {
    max_minutes_over(data, seconds_map(data), first, last)
}

/// The first day of the window that ends on `today`.
pub open spec fn window_start(today: int) -> int {
    today - HEATMAP_SPAN
}

/// The Monday on or before the first day of the window.
pub open spec fn grid_start(today: int) -> int {
    window_start(today) - weekday_of_day(window_start(today))
}

/// Number of weeks of the grid.
pub open spec fn week_count(today: int) -> int {
    (today - grid_start(today)) / 7 + 1
}

/// The place of weekday `weekday` in week `week` of the grid for `data` as of
/// `today`: the cell of its day, or nothing where the day is after today.
pub open spec fn cell_at(data: Seq<(i32, i64)>, today: int, week: int, weekday: int) -> Option<HeatmapCell> {
    let day = grid_start(today) + 7 * week + weekday;
    let minutes = minutes_of(seconds_on(data, day));
    if day <= today {
        Some(
            HeatmapCell {
                day: day as i32,
                minutes: minutes as i64,
                tier: tier_of(minutes, max_minutes_in(data, window_start(today), today)),
            },
        )
    } else {
        None
    }
}

/// Whether `grid` is the heatmap laid out from `data` as of day `today`.
pub open spec fn is_heatmap_of(grid: HeatmapGrid, data: Seq<(i32, i64)>, today: int) -> bool {
    &&& grid.max_minutes == max_minutes_in(data, window_start(today), today)
    &&& grid.weeks@.len() == week_count(today)
    &&& forall|w: int| 0 <= w < grid.weeks@.len() ==> (#[trigger] grid.weeks@[w])@.len() == 7
    &&& forall|w: int, d: int|
        0 <= w < grid.weeks@.len() && 0 <= d < 7 ==> #[trigger] grid.weeks@[w]@[d] == cell_at(data, today, w, d)
}

/// The rows the heatmap of a log is laid out from as of day `today`: for
/// each day of the last `HEATMAP_SPAN` days and today on which a work
/// session started, the day and the total of the durations, in ascending
/// order of day; no rows at all where one of the totals does not fit in 64
/// bits.
pub open spec fn heatmap_source(log: Seq<Session>, today: int) -> Seq<(i32, i64)> {
    if day_totals_fit(log, None, today - HEATMAP_SPAN, today) {
        let days = active_days(log, None, today - HEATMAP_SPAN, today);
        Seq::new(days.len(), |i: int| (days[i] as i32, day_total(log, None, days[i]) as i64))
    } else {
        Seq::empty()
    }
}

/// The month of a day, 1 to 12, or 0 where the calendar does not cover it.
pub open spec fn civil_month(day: int) -> int {
    match civil_of_day(day) {
        Some((y, m, d)) => m,
        None => 0,
    }
}

/// The month of a week's first place, where that place holds a day.
pub open spec fn week_month(week: Vec<Option<HeatmapCell>>) -> Option<int> {
    if week@.len() > 0 && week@[0] is Some {
        Some(civil_month(week@[0]->0.day as int))
    } else {
        None
    }
}

/// The month that was labelled last among `weeks`, 0 where none was.
pub open spec fn labelled_month(weeks: Seq<Vec<Option<HeatmapCell>>>) -> int
    decreases weeks.len(),
{
    if weeks.len() == 0 {
        0
    } else {
        let before = labelled_month(weeks.drop_last());
        match week_month(weeks.last()) {
            Some(m) => m,
            None => before,
        }
    }
}

/// The month that labels week `i`: the month of its first day where that
/// differs from the month labelled last before it, 0 for no label.
pub open spec fn month_label_at(weeks: Seq<Vec<Option<HeatmapCell>>>, i: int) -> int {
    match week_month(weeks[i]) {
        Some(m) => if m != labelled_month(weeks.take(i)) {
            m
        } else {
            0
        },
        None => 0,
    }
}

/// Whole minutes in a number of seconds, rounded towards zero.
pub fn whole_minutes(seconds: i64) -> (minutes: i64)
    ensures
        minutes == minutes_of(seconds as int),
{
    if seconds >= 0 {
        seconds / 60
    } else {
        let positive: i128 = -(seconds as i128);
        (-(positive / 60)) as i64
    }
}

/// Classifies a day's minutes against the maximum.
pub fn intensity_tier(minutes: i64, max_minutes: i64) -> (tier: IntensityTier)
    ensures
        tier == tier_of(minutes as int, max_minutes as int),
{
    let m: i128 = minutes as i128;
    let top: i128 = max_minutes as i128;
    if minutes == 0 {
        IntensityTier::Inactive
    } else if 4 * m < top {
        IntensityTier::Low
    } else if 2 * m < top {
        IntensityTier::Medium
    } else if 4 * m < 3 * top {
        IntensityTier::High
    } else {
        IntensityTier::Max
    }
}

/// The glyph a tier is drawn with. The tier `High` has the glyph of the
/// tier above it, `Max`: the two differ in the ratio only.
pub fn tier_glyph(tier: IntensityTier) -> (glyph: &'static str)
    ensures
        glyph@ == glyph_of(tier),
{
    match tier {
        IntensityTier::Inactive => "░",
        IntensityTier::Low => "▒",
        IntensityTier::Medium => "▓",
        IntensityTier::High => "█",
        IntensityTier::Max => "█",
    }
}

/// The glyph and the tier of a day with `minutes` minutes where the busiest
/// day has `max_minutes`.
pub fn get_intensity_char(minutes: i64, max_minutes: i64) -> (drawn: (&'static str, IntensityTier))
    ensures
        drawn.1 == tier_of(minutes as int, max_minutes as int),
        drawn.0@ == glyph_of(drawn.1),
{
    let tier = intensity_tier(minutes, max_minutes);
    (tier_glyph(tier), tier)
}

/// Collects rows of day and seconds into a map from day to seconds.
fn collect_seconds(data: &Vec<(i32, i64)>) -> (by_day: HashMap<i32, i64>)
    ensures
        by_day@ == seconds_map(data@),
{
    broadcast use group_hash_axioms;

    let mut by_day: HashMap<i32, i64> = HashMap::new();
    let mut i: usize = 0;
    while i < data.len()
        invariant
            i <= data@.len(),
            by_day@ == seconds_map(data@.take(i as int)),
        decreases data@.len() - i,
    {
        let ghost upto = data@.take(i + 1);
        assert(upto.drop_last() =~= data@.take(i as int));
        assert(upto.last() == data@[i as int]);
        let (day, seconds) = data[i];
        by_day.insert(day, seconds);
        i = i + 1;
    }
    assert(data@.take(data@.len() as int) =~= data@);
    by_day
}

/// The seconds that a map holds for `day`, 0 where it holds none.
fn lookup_seconds(by_day: &HashMap<i32, i64>, day: i32) -> (seconds: i64)
    ensures
        seconds == seconds_in(by_day@, day),
{
    broadcast use group_hash_axioms;

    match by_day.get(&day) {
        Some(seconds) => *seconds,
        None => 0,
    }
}

/// The most minutes that `by_day` holds for the day of any row from `first`
/// to `last`, and 1 where that is less.
fn max_minutes_with(data: &Vec<(i32, i64)>, by_day: &HashMap<i32, i64>, first: i32, last: i32) -> (most: i64)
    ensures
        most == max_minutes_over(data@, by_day@, first as int, last as int),
        most >= 1,
{
    let mut most: i64 = 1;
    let mut i: usize = 0;
    while i < data.len()
        invariant
            i <= data@.len(),
            most == max_minutes_over(data@.take(i as int), by_day@, first as int, last as int),
            most >= 1,
        decreases data@.len() - i,
    {
        let ghost upto = data@.take(i + 1);
        assert(upto.drop_last() =~= data@.take(i as int));
        assert(upto.last() == data@[i as int]);
        let day = data[i].0;
        let here = whole_minutes(lookup_seconds(by_day, day));
        if first <= day && day <= last && here > most {
            most = here;
        }
        i = i + 1;
    }
    assert(data@.take(data@.len() as int) =~= data@);
    most
}

/// The most minutes that `data` holds for any day from `first` to `last`,
/// and 1 where that is less.
pub fn find_max_minutes(data: &Vec<(i32, i64)>, first: i32, last: i32) -> (most: i64)
    ensures
        most == max_minutes_in(data@, first as int, last as int),
        most >= 1,
{
    let by_day = collect_seconds(data);
    max_minutes_with(data, &by_day, first, last)
}

/// Lays out the heatmap for `data`, rows of day and seconds, as of the day
/// of `today`. The window reaches back `HEATMAP_SPAN` days from today, the
/// grid from the Monday on or before the window's first day to the Sunday
/// on or after today. Where several rows are of one day the last counts.
pub fn heatmap_grid(data: &Vec<(i32, i64)>, today: &Timestamp) -> (grid: HeatmapGrid)
    ensures
        is_heatmap_of(grid, data@, today.day_number()),
{
    let last: i32 = today.day();
    let first: i32 = last - HEATMAP_SPAN;
    let probe: i32 = if first < MIN_DAY {
        first + WEEKS_AHEAD * 7
    } else {
        first
    };
    let weekday: i32 = match weekday_from_monday(probe) {
        Some(w) => w as i32,
        None => 0,
    };
    let monday: i32 = first - weekday;
    let by_day = collect_seconds(data);
    let most = max_minutes_with(data, &by_day, first, last);
    let mut weeks: Vec<Vec<Option<HeatmapCell>>> = Vec::new();
    let mut week_start: i32 = monday;
    while week_start <= last
        invariant
            MIN_DAY <= last <= MAX_DAY,
            last == today.day_number(),
            first == window_start(last as int),
            monday == grid_start(last as int),
            MIN_DAY - HEATMAP_SPAN - 6 <= monday <= first,
            most == max_minutes_in(data@, first as int, last as int),
            by_day@ == seconds_map(data@),
            week_start == monday + 7 * weeks@.len(),
            week_start <= last + 7,
            forall|w: int| 0 <= w < weeks@.len() ==> (#[trigger] weeks@[w])@.len() == 7,
            forall|w: int, d: int|
                0 <= w < weeks@.len() && 0 <= d < 7 ==> #[trigger] weeks@[w]@[d] == cell_at(
                    data@,
                    last as int,
                    w,
                    d,
                ),
        decreases last + 7 - week_start,
    {
        let ghost w = weeks@.len() as int;
        let mut week: Vec<Option<HeatmapCell>> = Vec::new();
        let mut d: i32 = 0;
        while d < 7
            invariant
                0 <= d <= 7,
                MIN_DAY <= last <= MAX_DAY,
                monday == grid_start(last as int),
                first == window_start(last as int),
                MIN_DAY - HEATMAP_SPAN - 6 <= monday,
                week_start == monday + 7 * w,
                week_start <= last,
                most == max_minutes_in(data@, first as int, last as int),
                by_day@ == seconds_map(data@),
                week@.len() == d,
                forall|k: int| 0 <= k < d ==> #[trigger] week@[k] == cell_at(data@, last as int, w, k),
            decreases 7 - d,
        {
            let day: i32 = week_start + d;
            if day <= last {
                proof {
                    lemma_seconds_map(data@, day);
                }
                let minutes = whole_minutes(lookup_seconds(&by_day, day));
                week.push(Some(HeatmapCell { day, minutes, tier: intensity_tier(minutes, most) }));
            } else {
                week.push(None);
            }
            d = d + 1;
        }
        weeks.push(week);
        week_start = week_start + 7;
    }
    HeatmapGrid { max_minutes: most, weeks }
}

/// The heatmap of a store's log as of the day of `today`: the grid laid out
/// from `heatmap_source`.
pub fn heatmap_on(db: &Database, today: &Timestamp) -> (grid: HeatmapGrid)
    ensures
        is_heatmap_of(grid, heatmap_source(db.log(), today.day_number()), today.day_number()),
{
    let data = db.heatmap_data_on(today);
    match &data {
        Ok(rows) => {
            assert(rows@ =~= heatmap_source(db.log(), today.day_number()));
            heatmap_grid(rows, today)
        },
        Err(e) => {
            let empty: Vec<(i32, i64)> = Vec::new();
            assert(empty@ =~= heatmap_source(db.log(), today.day_number()));
            heatmap_grid(&empty, today)
        },
    }
}

/// The heatmap of a store's log as of the local wall clock's day. The day is
/// whatever the clock says; the grid is `heatmap_on` of it.
pub fn heatmap_today(db: &Database) -> (grid: HeatmapGrid)
    ensures
        exists|today: int|
            MIN_DAY <= today <= MAX_DAY && #[trigger] is_heatmap_of(grid, heatmap_source(db.log(), today), today),
{
    let now = Timestamp::now();
    let grid = heatmap_on(db, &now);
    assert(now.valid());
    assert(is_heatmap_of(grid, heatmap_source(db.log(), now.day_number()), now.day_number()));
    grid
}

/// The month of a day, 1 to 12, or 0 where the calendar does not cover it.
pub fn month_of_day(day: i32) -> (month: u32)
    ensures
        month == civil_month(day as int),
        month <= 12,
{
    match civil_date(day) {
        Some((y, m, d)) => m,
        None => 0,
    }
}

/// The month labels above the weeks of a grid: for each week the number of
/// the month its first day lies in where a new month begins there, and 0
/// where the week gets no label.
pub fn month_labels(grid: &HeatmapGrid) -> (labels: Vec<u32>)
    ensures
        labels@.len() == grid.weeks@.len(),
        forall|i: int| 0 <= i < labels@.len() ==> #[trigger] labels@[i] == month_label_at(grid.weeks@, i),
{
    let mut labels: Vec<u32> = Vec::new();
    let mut last_month: u32 = 0;
    let mut i: usize = 0;
    while i < grid.weeks.len()
        invariant
            i <= grid.weeks@.len(),
            labels@.len() == i,
            last_month == labelled_month(grid.weeks@.take(i as int)),
            forall|k: int| 0 <= k < i ==> #[trigger] labels@[k] == month_label_at(grid.weeks@, k),
        decreases grid.weeks@.len() - i,
    {
        let ghost upto = grid.weeks@.take(i + 1);
        assert(upto.drop_last() =~= grid.weeks@.take(i as int));
        assert(upto.last() == grid.weeks@[i as int]);
        let week = &grid.weeks[i];
        let mut label: u32 = 0;
        if week.len() > 0 {
            if let Some(cell) = week[0] {
                let month = month_of_day(cell.day);
                if month != last_month {
                    label = month;
                }
                last_month = month;
            }
        }
        labels.push(label);
        i = i + 1;
    }
    labels
}

/// The short name of a month, empty for a number that is no month.
pub fn month_name(month: u32) -> (name: &'static str)
    ensures
        name@ == match month {
            1 => "Jan"@,
            2 => "Feb"@,
            3 => "Mar"@,
            4 => "Apr"@,
            5 => "May"@,
            6 => "Jun"@,
            7 => "Jul"@,
            8 => "Aug"@,
            9 => "Sep"@,
            10 => "Oct"@,
            11 => "Nov"@,
            12 => "Dec"@,
            _ => ""@,
        },
{
    match month {
        1 => "Jan",
        2 => "Feb",
        3 => "Mar",
        4 => "Apr",
        5 => "May",
        6 => "Jun",
        7 => "Jul",
        8 => "Aug",
        9 => "Sep",
        10 => "Oct",
        11 => "Nov",
        12 => "Dec",
        _ => "",
    }
}

/// A day without work is in no tier but `Inactive`, and a busiest day with any
/// work is in the tier `Max`.
pub proof fn lemma_tier_extremes(minutes: int, max_minutes: int)
    requires
        max_minutes >= 1,
    ensures
        tier_of(0, max_minutes) == IntensityTier::Inactive,
        minutes != 0 ==> tier_of(minutes, max_minutes) != IntensityTier::Inactive,
        minutes == max_minutes ==> tier_of(minutes, max_minutes) == IntensityTier::Max,
{
}

/// A day at half of the maximum or more is drawn like the busiest day,
/// whether it is in the tier `High` or in the tier `Max`.
pub proof fn lemma_high_is_drawn_as_max(minutes: int, max_minutes: int)
    requires
        minutes > 0,
        2 * minutes >= max_minutes,
    ensures
        tier_of(minutes, max_minutes) == IntensityTier::High || tier_of(minutes, max_minutes)
            == IntensityTier::Max,
        glyph_of(tier_of(minutes, max_minutes)) == glyph_of(IntensityTier::Max),
        glyph_of(IntensityTier::High) == glyph_of(IntensityTier::Max),
{
}

/// The map of the rows holds for each day the seconds of the last row of
/// that day.
pub proof fn lemma_seconds_map(data: Seq<(i32, i64)>, day: i32)
    ensures
        seconds_in(seconds_map(data), day) == seconds_on(data, day as int),
    decreases data.len(),
{
    if data.len() > 0 {
        lemma_seconds_map(data.drop_last(), day);
    }
}

/// The maximum over rows is at least 1 and at least the minutes that the
/// map holds for the day of every row of the window, and where it is above
/// 1 the day of some row of the window has it.
pub proof fn lemma_max_minutes_over(rows: Seq<(i32, i64)>, by_day: Map<i32, i64>, first: int, last: int)
    ensures
        max_minutes_over(rows, by_day, first, last) >= 1,
        forall|i: int|
            0 <= i < rows.len() && first <= (#[trigger] rows[i]).0 <= last ==> minutes_of(
                seconds_in(by_day, rows[i].0) as int,
            ) <= max_minutes_over(rows, by_day, first, last),
        max_minutes_over(rows, by_day, first, last) > 1 ==> exists|i: int|
            0 <= i < rows.len() && first <= (#[trigger] rows[i]).0 <= last && minutes_of(
                seconds_in(by_day, rows[i].0) as int,
            ) == max_minutes_over(rows, by_day, first, last),
    decreases rows.len(),
{
    if rows.len() > 0 {
        let front = rows.drop_last();
        lemma_max_minutes_over(front, by_day, first, last);
        assert forall|i: int| 0 <= i < rows.len() && first <= (#[trigger] rows[i]).0 <= last implies minutes_of(
            seconds_in(by_day, rows[i].0) as int,
        ) <= max_minutes_over(rows, by_day, first, last) by {
            if i < rows.len() - 1 {
                assert(front[i] == rows[i]);
            }
        }
        if max_minutes_over(rows, by_day, first, last) > 1 {
            if max_minutes_over(rows, by_day, first, last) == max_minutes_over(front, by_day, first, last) {
                let k = choose|k: int|
                    0 <= k < front.len() && first <= (#[trigger] front[k]).0 <= last && minutes_of(
                        seconds_in(by_day, front[k].0) as int,
                    ) == max_minutes_over(front, by_day, first, last);
                assert(rows[k] == front[k]);
            } else {
                assert(rows[rows.len() - 1] == rows.last());
            }
        }
    }
}

/// The maximum is at least 1 and at least the minutes of every day of the
/// window, and where it is above 1 some day of the window has it: a day in
/// the tier `Max`.
pub proof fn lemma_max_minutes(data: Seq<(i32, i64)>, first: int, last: int)
    ensures
        max_minutes_in(data, first, last) >= 1,
        forall|i: int|
            0 <= i < data.len() && first <= (#[trigger] data[i]).0 <= last ==> minutes_of(
                seconds_on(data, data[i].0 as int),
            ) <= max_minutes_in(data, first, last),
        max_minutes_in(data, first, last) > 1 ==> exists|i: int|
            0 <= i < data.len() && first <= (#[trigger] data[i]).0 <= last && minutes_of(
                seconds_on(data, data[i].0 as int),
            ) == max_minutes_in(data, first, last),
{
    let by_day = seconds_map(data);
    lemma_max_minutes_over(data, by_day, first, last);
    assert forall|i: int| 0 <= i < data.len() implies seconds_in(by_day, (#[trigger] data[i]).0) == seconds_on(
        data,
        data[i].0 as int,
    ) by {
        lemma_seconds_map(data, data[i].0);
    }
    if max_minutes_in(data, first, last) > 1 {
        let k = choose|k: int|
            0 <= k < data.len() && first <= (#[trigger] data[k]).0 <= last && minutes_of(
                seconds_in(by_day, data[k].0) as int,
            ) == max_minutes_over(data, by_day, first, last);
        assert(minutes_of(seconds_on(data, data[k].0 as int)) == max_minutes_in(data, first, last));
    }
}

/// With work on a single day of the window, that day's minutes are the
/// maximum and the day is in the tier `Max`, while every other day is in
/// the tier `Inactive`.
pub proof fn lemma_single_busy_day(day: i32, seconds: i64, today: int, week: int, weekday: int)
    requires
        MIN_DAY <= today <= MAX_DAY,
        window_start(today) <= day <= today,
        minutes_of(seconds as int) >= 1,
        0 <= week,
        0 <= weekday < 7,
        grid_start(today) + 7 * week + weekday <= today,
    ensures
        max_minutes_in(seq![(day, seconds)], window_start(today), today) == minutes_of(seconds as int),
        cell_at(seq![(day, seconds)], today, week, weekday) matches Some(cell) && cell.tier == if cell.day
            == day {
            IntensityTier::Max
        } else {
            IntensityTier::Inactive
        },
{
    let data = seq![(day, seconds)];
    assert(data.drop_last() =~= Seq::<(i32, i64)>::empty());
    assert(data.last() == (day, seconds));
    reveal_with_fuel(max_minutes_over, 2);
    reveal_with_fuel(seconds_on, 2);
    reveal_with_fuel(seconds_map, 2);
}

/// Rows in strictly ascending order of day hold for each of their days the
/// seconds of the row of that day.
pub proof fn lemma_seconds_on_row(data: Seq<(i32, i64)>, i: int)
    requires
        0 <= i < data.len(),
        forall|a: int, b: int| 0 <= a < b < data.len() ==> (#[trigger] data[a]).0 < (#[trigger] data[b]).0,
    ensures
        seconds_on(data, data[i].0 as int) == data[i].1,
    decreases data.len(),
{
    if i < data.len() - 1 {
        let front = data.drop_last();
        assert(data[i].0 < data[data.len() - 1].0);
        assert(front[i] == data[i]);
        lemma_seconds_on_row(front, i);
    }
}

/// Rows hold no seconds for a day that none of them is of.
pub proof fn lemma_seconds_on_absent(data: Seq<(i32, i64)>, day: int)
    requires
        forall|i: int| 0 <= i < data.len() ==> (#[trigger] data[i]).0 != day,
    ensures
        seconds_on(data, day) == 0,
    decreases data.len(),
{
    if data.len() > 0 {
        let front = data.drop_last();
        assert(data[data.len() - 1].0 != day);
        assert forall|i: int| 0 <= i < front.len() implies (#[trigger] front[i]).0 != day by {
            assert(front[i] == data[i]);
        }
        lemma_seconds_on_absent(front, day);
    }
}

/// Where every daily total fits in 64 bits, the heatmap shows for each day
/// of the window the total of the work sessions that started on that day,
/// and nothing for any other day.
pub proof fn lemma_heatmap_shows_day_totals(log: Seq<Session>, today: int, day: int)
    requires
        MIN_DAY <= today <= MAX_DAY,
        day_totals_fit(log, None, today - HEATMAP_SPAN, today),
    ensures
        seconds_on(heatmap_source(log, today), day) == if today - HEATMAP_SPAN <= day <= today {
            day_total(log, None, day)
        } else {
            0
        },
{
    let first = today - HEATMAP_SPAN;
    let days = active_days(log, None, first, today);
    let rows = heatmap_source(log, today);
    lemma_active_days(log, None, first, today);
    if first <= day <= today && day_active(log, None, day) {
        let k = choose|k: int| 0 <= k < days.len() && days[k] == day;
        assert forall|a: int, b: int| 0 <= a < b < rows.len() implies (#[trigger] rows[a]).0 < (
        #[trigger] rows[b]).0 by {
            assert(days[a] < days[b]);
        }
        lemma_seconds_on_row(rows, k);
        assert(rows[k].0 == day);
    } else {
        assert forall|i: int| 0 <= i < rows.len() implies (#[trigger] rows[i]).0 != day by {
            assert(first <= days[i] <= today && day_active(log, None, days[i]));
        }
        lemma_seconds_on_absent(rows, day);
        if first <= day <= today {
            lemma_inactive_day_total(log, None, day);
        }
    }
}

} // verus!
