//! What the screens show of the state, as plain values.

use vstd::prelude::*;
use vstd::string::*;
use crate::app::{App, PomodoroMode, StatsView};

verus! {

/// What the status line says of the timer.
#[derive(Debug, Clone, Copy, PartialEq, Eq, Structural)]
pub enum TimerStatus {
    /// The countdown is moving.
    Running,
    /// The countdown stands below the full length of the interval.
    Paused,
    /// The countdown stands at the full length of the interval.
    Ready,
}

/// Number of characters of a day label that the weekly chart leaves out:
/// the year and the hyphen after it.
pub const YEAR_PREFIX: usize = 5;

/// Seconds in a minute.
pub const SECONDS_PER_MINUTE: u64 = 60;

/// The status of a timer.
pub open spec fn status_of(app: App) -> TimerStatus {
    if app.timer_running {
        TimerStatus::Running
    } else if app.remaining_seconds < app.duration_of(app.mode) {
        TimerStatus::Paused
    } else {
        TimerStatus::Ready
    }
}

/// The seconds of the interval that have passed: the full length less the
/// countdown, and 0 where the countdown is the larger.
pub open spec fn elapsed_of(app: App) -> int {
    if app.remaining_seconds <= app.duration_of(app.mode) {
        app.duration_of(app.mode) - app.remaining_seconds
    } else {
        0
    }
}

/// The status of the timer.
pub fn timer_status(app: &App) -> (status: TimerStatus)
    ensures
        status == status_of(*app),
{
    if app.timer_running {
        TimerStatus::Running
    } else if app.remaining_seconds < app.configured_duration(app.mode) {
        TimerStatus::Paused
    } else {
        TimerStatus::Ready
    }
}

/// The seconds of the interval that have passed.
pub fn elapsed_seconds(app: &App) -> (elapsed: u64)
    ensures
        elapsed == elapsed_of(*app),
{
    let total = app.configured_duration(app.mode);
    if app.remaining_seconds <= total {
        total - app.remaining_seconds
    } else {
        0
    }
}

/// Title and message of the notice that the end of an interval of the given
/// mode is announced with.
pub fn completion_notice(finished: PomodoroMode) -> (notice: (&'static str, &'static str))
    ensures
        notice.0@ == "Pomodoro++"@,
        notice.1@ == match finished {
            PomodoroMode::Work => "Work session complete! Time for a break."@,
            PomodoroMode::Break => "Break is over! Back to work."@,
        },
{
    match finished {
        PomodoroMode::Work => ("Pomodoro++", "Work session complete! Time for a break."),
        PomodoroMode::Break => ("Pomodoro++", "Break is over! Back to work."),
    }
}

/// The label of a bar: in the weekly view the bucket's label without its
/// first `YEAR_PREFIX` characters, in the monthly view the whole label.
pub open spec fn bar_label(label: Seq<char>, view: StatsView) -> Seq<char> {
    match view {
        StatsView::Weekly => if label.len() >= YEAR_PREFIX {
            label.skip(YEAR_PREFIX as int)
        } else {
            Seq::empty()
        },
        StatsView::Monthly => label,
    }
}

/// The height of a bar: the bucket's seconds, read as an unsigned number of
/// 64 bits, in whole minutes.
pub open spec fn bar_minutes(seconds: i64) -> int {
    if seconds >= 0 {
        seconds / 60
    } else {
        (seconds + 0x1_0000_0000_0000_0000) / 60
    }
}

/// The bars of the chart for a summary: one per bucket, in the summary's
/// order, each with its label and its height in minutes.
pub fn chart_bars(data: &Vec<(String, i64)>, view: StatsView) -> (bars: Vec<(String, u64)>)
    ensures
        bars@.len() == data@.len(),
        forall|i: int|
            0 <= i < bars@.len() ==> (#[trigger] bars@[i]).0@ == bar_label(data@[i].0@, view) && bars@[i].1
                == bar_minutes(data@[i].1),
{
    let mut bars: Vec<(String, u64)> = Vec::new();
    let mut i: usize = 0;
    while i < data.len()
        invariant
            i <= data@.len(),
            bars@.len() == i,
            forall|k: int|
                0 <= k < i ==> (#[trigger] bars@[k]).0@ == bar_label(data@[k].0@, view) && bars@[k].1
                    == bar_minutes(data@[k].1),
        decreases data@.len() - i,
    {
        let label = data[i].0.as_str();
        let seconds = data[i].1;
        let short = match view {
            StatsView::Weekly => {
                let n = label.unicode_len();
                if n >= YEAR_PREFIX {
                    let kept = label.substring_char(YEAR_PREFIX, n).to_owned();
                    assert(kept@ =~= label@.skip(YEAR_PREFIX as int));
                    kept
                } else {
                    String::new()
                }
            },
            StatsView::Monthly => label.to_owned(),
        };
        let unsigned: u64 = if seconds >= 0 {
            seconds as u64
        } else {
            (seconds as i128 + 0x1_0000_0000_0000_0000) as u64
        };
        bars.push((short, unsigned / SECONDS_PER_MINUTE));
        i = i + 1;
    }
    bars
}

} // verus!
