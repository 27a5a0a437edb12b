//! The timer engine and the state of the screens around it.

use vstd::prelude::*;
use vstd::string::*;
use crate::calendar::Timestamp;
use crate::db::{holds_text, next_id, texts, Database, Session};
use crate::text::{
    clamp_i64_to, clamped, decimal_digits, parse_number, parsed_number, push_decimal, push_padded, same_text,
    zero_padded,
};

verus! {

/// The screen that is shown.
#[derive(Debug, Clone, Copy, PartialEq, Eq, Structural)]
pub enum Screen {
    Home,
    Stats,
    Heatmap,
    TagInput,
    DeleteConfirm,
    Settings,
}

/// The kind of interval the timer counts down.
#[derive(Debug, Clone, Copy, PartialEq, Eq, Structural)]
pub enum PomodoroMode {
    Work,
    Break,
}

/// The bucket size of the statistics screen.
#[derive(Debug, Clone, Copy, PartialEq, Eq, Structural)]
pub enum StatsView {
    Weekly,
    Monthly,
}

/// Whether keys are commands or text for the input buffer.
#[derive(Debug, Clone, Copy, PartialEq, Eq, Structural)]
pub enum InputMode {
    Normal,
    Editing,
}

impl PomodoroMode {
    /// The mode that follows this one.
    pub open spec fn flipped(self) -> PomodoroMode {
        match self {
            PomodoroMode::Work => PomodoroMode::Break,
            PomodoroMode::Break => PomodoroMode::Work,
        }
    }

    /// The mode that follows this one.
    pub fn counterpart(self) -> (next: PomodoroMode)
        ensures
            next == self.flipped(),
    {
        match self {
            PomodoroMode::Work => PomodoroMode::Break,
            PomodoroMode::Break => PomodoroMode::Work,
        }
    }

    /// The name under which sessions of this mode are stored.
    pub open spec fn stored_name(self) -> Seq<char> {
        match self {
            PomodoroMode::Work => "work"@,
            PomodoroMode::Break => "break"@,
        }
    }

    /// The name under which sessions of this mode are stored: `work` or
    /// `break`.
    pub fn as_str(self) -> (name: &'static str)
        ensures
            name@ == self.stored_name(),
    {
        match self {
            PomodoroMode::Work => "work",
            PomodoroMode::Break => "break",
        }
    }

    /// The mode stored under `name`, if there is one.
    pub open spec fn named(name: Seq<char>) -> Option<PomodoroMode> {
        if name == "work"@ {
            Some(PomodoroMode::Work)
        } else if name == "break"@ {
            Some(PomodoroMode::Break)
        } else {
            None
        }
    }

    /// Reads a stored mode name.
    pub fn from_name(name: &str) -> (mode: Option<PomodoroMode>)
        ensures
            mode == PomodoroMode::named(name@),
    {
        if same_text(name, "work") {
            Some(PomodoroMode::Work)
        } else if same_text(name, "break") {
            Some(PomodoroMode::Break)
        } else {
            None
        }
    }
}

/// Shortest work interval, in seconds.
pub const WORK_MIN: u64 = 60;

/// Longest work interval, in seconds.
pub const WORK_MAX: u64 = 7200;

/// Shortest break interval, in seconds.
pub const BREAK_MIN: u64 = 60;

/// Longest break interval, in seconds.
pub const BREAK_MAX: u64 = 3600;

/// Work interval where none is configured, in seconds.
pub const WORK_DEFAULT: u64 = 1500;

/// Break interval where none is configured, in seconds.
pub const BREAK_DEFAULT: u64 = 300;

/// The timer with its tags, its store and the state of its screens.
pub struct App {
    pub current_screen: Screen,
    pub previous_screen: Screen,
    pub timer_running: bool,
    pub mode: PomodoroMode,
    pub remaining_seconds: u64,
    pub selected_tag_index: usize,
    pub tags: Vec<String>,
    pub work_duration: u64,
    pub break_duration: u64,
    pub db: Database,
    pub should_quit: bool,
    pub stats_view: StatsView,
    /// 0 stands for all tags, `i + 1` for tag `i`.
    pub stats_tag_index: usize,
    pub input_mode: InputMode,
    pub input_buffer: String,
    pub session_start: Option<Timestamp>,
}

/// What a tick reports when it completes an interval.
#[derive(Debug, Clone, Copy, PartialEq, Eq, Structural)]
pub struct Completion {
    /// The mode of the interval that has ended.
    pub finished: PomodoroMode,
    /// Whether a session was appended to the log.
    pub recorded: bool,
}

/// The longest interval a mode admits.
pub open spec fn mode_limit(mode: PomodoroMode) -> u64 {
    match mode {
        PomodoroMode::Work => WORK_MAX,
        PomodoroMode::Break => BREAK_MAX,
    }
}

/// A duration as the log records it: itself, or the largest recordable
/// number where it is larger.
pub open spec fn recorded_duration(seconds: u64) -> i64 {
    if seconds <= i64::MAX {
        seconds as i64
    } else {
        i64::MAX
    }
}

impl App {
    /// The configured length of an interval of the given mode.
    pub open spec fn duration_of(&self, mode: PomodoroMode) -> u64 {
        match mode {
            PomodoroMode::Work => self.work_duration,
            PomodoroMode::Break => self.break_duration,
        }
    }

    /// The invariant of the engine: both durations lie within their bounds,
    /// the countdown is above zero and within the bound of its mode, a
    /// running timer has an open session, and the selected tag exists
    /// wherever there are tags.
    pub open spec fn wf(&self) -> bool {
        &&& WORK_MIN <= self.work_duration <= WORK_MAX
        &&& BREAK_MIN <= self.break_duration <= BREAK_MAX
        &&& 1 <= self.remaining_seconds <= mode_limit(self.mode)
        &&& self.timer_running ==> self.session_start is Some
        &&& self.selected_tag_index < self.tags@.len() || self.selected_tag_index == 0
    }

    /// The tag a completed session is recorded under: the selected tag, or
    /// `Work` where the selection points at no tag.
    pub open spec fn recording_tag(&self) -> Seq<char> {
        if self.selected_tag_index < self.tags@.len() {
            self.tags@[self.selected_tag_index as int]@
        } else {
            "Work"@
        }
    }

    /// The state after the interval of the current mode has ended: the
    /// other mode at its full length, stopped, with no session open.
    pub open spec fn next_interval(self) -> App {
        App {
            mode: self.mode.flipped(),
            remaining_seconds: self.duration_of(self.mode.flipped()),
            timer_running: false,
            session_start: None,
            ..self
        }
    }

    /// Whether `after` is this state with the work length moved by `delta`
    /// seconds: the length is kept within its bounds and stored under
    /// `work_duration`, and a timer paused in work mode has it as its
    /// countdown.
    pub open spec fn work_adjusted(self, delta: i64, after: App) -> bool {
        &&& after.work_duration == clamped(self.work_duration + delta, WORK_MIN as int, WORK_MAX as int)
        &&& after == (App {
            work_duration: after.work_duration,
            remaining_seconds: if self.mode == PomodoroMode::Work && !self.timer_running {
                after.work_duration
            } else {
                self.remaining_seconds
            },
            db: after.db,
            ..self
        })
        &&& after.db.settings() == self.db.settings().insert(
            "work_duration"@,
            decimal_digits(after.work_duration as nat),
        )
        &&& after.db.log() == self.db.log()
        &&& after.db.tags() == self.db.tags()
    }

    /// Whether `after` is this state with the break length moved by `delta`
    /// seconds: the length is kept within its bounds and stored under
    /// `break_duration`, and a timer paused in break mode has it as its
    /// countdown.
    pub open spec fn break_adjusted(self, delta: i64, after: App) -> bool {
        &&& after.break_duration == clamped(self.break_duration + delta, BREAK_MIN as int, BREAK_MAX as int)
        &&& after == (App {
            break_duration: after.break_duration,
            remaining_seconds: if self.mode == PomodoroMode::Break && !self.timer_running {
                after.break_duration
            } else {
                self.remaining_seconds
            },
            db: after.db,
            ..self
        })
        &&& after.db.settings() == self.db.settings().insert(
            "break_duration"@,
            decimal_digits(after.break_duration as nat),
        )
        &&& after.db.log() == self.db.log()
        &&& after.db.tags() == self.db.tags()
    }

    /// Whether `after` is this state with the tag `name` added: nothing
    /// changes for an empty name or one that is listed; any other name goes
    /// to the end of the list and into the store.
    pub open spec fn tag_added(self, name: String, after: App) -> bool {
        &&& after == (App { tags: after.tags, db: after.db, ..self })
        &&& name@.len() == 0 || texts(self.tags@).contains(name@) ==> after.tags == self.tags && after.db
            == self.db
        &&& name@.len() > 0 && !texts(self.tags@).contains(name@) ==> {
            &&& after.tags@ == self.tags@.push(name)
            &&& forall|t: Seq<char>| after.db.tags().contains(t) <==> self.db.tags().contains(t) || t == name@
            &&& after.db.log() == self.db.log()
            &&& after.db.settings() == self.db.settings()
        }
    }

    /// Whether `after` is this state with the selected tag deleted: nothing
    /// changes where the selection points at no tag; otherwise the tag
    /// leaves the list and the store, and a selection that pointed at the
    /// last tag moves to the new last one.
    pub open spec fn selected_tag_deleted(self, after: App) -> bool {
        &&& after == (App {
            tags: after.tags,
            db: after.db,
            selected_tag_index: after.selected_tag_index,
            ..self
        })
        &&& self.selected_tag_index >= self.tags@.len() ==> after == self
        &&& self.selected_tag_index < self.tags@.len() ==> {
            let at = self.selected_tag_index as int;
            &&& after.tags@ == self.tags@.remove(at)
            &&& after.selected_tag_index == if at + 1 == self.tags@.len() && at > 0 {
                at - 1
            } else {
                at
            }
            &&& forall|t: Seq<char>|
                after.db.tags().contains(t) <==> self.db.tags().contains(t) && t != self.tags@[at]@
            &&& after.db.log() == self.db.log()
            &&& after.db.settings() == self.db.settings()
        }
    }

    /// Whether a tick makes the countdown move: the timer is running and has
    /// not reached zero.
    pub open spec fn counting(&self) -> bool {
        self.timer_running && self.remaining_seconds > 0
    }

    /// Whether a tick completes the interval: the timer is running and the
    /// countdown is at its last second.
    pub open spec fn completing(&self) -> bool {
        self.timer_running && self.remaining_seconds == 1
    }

    /// What a tick leaves of the state, the store aside: the state itself
    /// where the timer is not counting, one second less where it counts and
    /// does not complete, the next interval where it completes.
    pub open spec fn ticked(self) -> App {
        if !self.counting() {
            self
        } else if !self.completing() {
            App { remaining_seconds: (self.remaining_seconds - 1) as u64, ..self }
        } else {
            self.next_interval()
        }
    }

    /// What `count` ticks in a row leave of the state, the store aside.
    pub open spec fn ticked_times(self, count: nat) -> App
        decreases count,
    {
        if count == 0 {
            self
        } else {
            self.ticked_times((count - 1) as nat).ticked()
        }
    }

    /// What a tick reports: nothing unless it completes the interval, and
    /// then the mode that has ended and whether a session was open to be
    /// recorded.
    pub open spec fn completion(&self) -> Option<Completion> {
        if self.completing() {
            Some(Completion { finished: self.mode, recorded: self.session_start is Some })
        } else {
            None
        }
    }

    /// Whether `session` is what completing the interval at this state
    /// records at time `now`: the open session's start, `now` as its end,
    /// the configured length of the mode as its duration, the recording tag
    /// and the mode.
    pub open spec fn records(&self, now: Timestamp, session: Session) -> bool {
        &&& session.id == next_id(self.db.log().len())
        &&& Some(session.start_time) == self.session_start
        &&& session.end_time == now
        &&& session.duration == recorded_duration(self.duration_of(self.mode))
        &&& session.tag@ == self.recording_tag()
        &&& session.session_type == self.mode
    }

    /// Whether `store` is the store after the interval has been completed
    /// at time `now`: the store before it with the one session that
    /// `records` describes appended to the log where a session is open, and
    /// the very store before it otherwise.
    pub open spec fn store_after_completion(&self, now: Timestamp, store: Database) -> bool {
        if self.session_start is Some {
            &&& store.log().len() == self.db.log().len() + 1
            &&& store.log().drop_last() == self.db.log()
            &&& self.records(now, store.log().last())
            &&& store.tags() == self.db.tags()
            &&& store.settings() == self.db.settings()
        } else {
            store == self.db
        }
    }

    /// Whether `store` is the store after a tick at time `now`: that after
    /// the completion where the tick completes the interval, and the very
    /// store before it otherwise.
    pub open spec fn store_after_tick(&self, now: Timestamp, store: Database) -> bool {
        if self.completing() {
            self.store_after_completion(now, store)
        } else {
            store == self.db
        }
    }

    /// The state after a toggle at `now`.
    pub open spec fn toggled(self, now: Timestamp) -> App {
        App {
            timer_running: !self.timer_running,
            session_start: if self.timer_running || self.session_start is Some {
                self.session_start
            } else {
                Some(now)
            },
            ..self
        }
    }

    /// The state after a reset: stopped, no session open, the countdown at
    /// the full length of the current mode.
    pub open spec fn reset(self) -> App {
        App {
            timer_running: false,
            session_start: None,
            remaining_seconds: self.duration_of(self.mode),
            ..self
        }
    }

    /// The state with the next tag selected, the first after the last.
    pub open spec fn with_next_tag(self) -> App {
        App {
            selected_tag_index: if self.tags@.len() == 0 {
                self.selected_tag_index
            } else {
                ((self.selected_tag_index + 1) % (self.tags@.len() as int)) as usize
            },
            ..self
        }
    }

    /// The state with the previous tag selected, the last before the first.
    pub open spec fn with_prev_tag(self) -> App {
        App {
            selected_tag_index: if self.tags@.len() == 0 {
                self.selected_tag_index
            } else if self.selected_tag_index == 0 {
                (self.tags@.len() - 1) as usize
            } else {
                (self.selected_tag_index - 1) as usize
            },
            ..self
        }
    }

    /// The state with `screen` shown and the shown screen remembered.
    pub open spec fn navigated(self, screen: Screen) -> App {
        App { previous_screen: self.current_screen, current_screen: screen, ..self }
    }

    /// The state with the other statistics view.
    pub open spec fn with_other_view(self) -> App {
        App {
            stats_view: match self.stats_view {
                StatsView::Weekly => StatsView::Monthly,
                StatsView::Monthly => StatsView::Weekly,
            },
            ..self
        }
    }

    /// The state with the statistics filter moved on by one.
    pub open spec fn with_next_stats_tag(self) -> App {
        App {
            stats_tag_index: ((self.stats_tag_index + 1) % (self.tags@.len() as int + 1)) as usize,
            ..self
        }
    }

    /// The state with the statistics filter moved back by one.
    pub open spec fn with_prev_stats_tag(self) -> App {
        App {
            stats_tag_index: if self.stats_tag_index == 0 {
                self.tags@.len() as usize
            } else {
                (self.stats_tag_index - 1) as usize
            },
            ..self
        }
    }

    /// The length of an interval of the given mode.
    pub fn configured_duration(&self, mode: PomodoroMode) -> (seconds: u64)
        ensures
            seconds == self.duration_of(mode),
    {
        match mode {
            PomodoroMode::Work => self.work_duration,
            PomodoroMode::Break => self.break_duration,
        }
    }

    /// The selected tag, if the selection points at one.
    pub fn selected_tag(&self) -> (tag: Option<&str>)
        ensures
            tag is Some <==> self.selected_tag_index < self.tags@.len(),
            tag matches Some(t) ==> t@ == self.tags@[self.selected_tag_index as int]@,
    {
        if self.selected_tag_index < self.tags.len() {
            Some(self.tags[self.selected_tag_index].as_str())
        } else {
            None
        }
    }

    /// Starts a paused timer or pauses a running one, at time `now`.
    /// Starting opens a session at `now` unless one is open already; the
    /// countdown is never touched.
    pub fn toggle_timer_at(&mut self, now: Timestamp)
        ensures
            *final(self) == old(self).toggled(now),
            old(self).wf() ==> final(self).wf(),
    {
        if self.timer_running {
            self.timer_running = false;
        } else {
            self.timer_running = true;
            if self.session_start.is_none() {
                self.session_start = Some(now);
            }
        }
    }

    /// Starts a paused timer or pauses a running one, at the time the local
    /// wall clock shows. Whatever the clock says, all that can differ from
    /// the state before is the running flag, which flips, and a session
    /// start that was empty.
    pub fn toggle_timer(&mut self)
        ensures
            exists|now: Timestamp| *final(self) == #[trigger] old(self).toggled(now),
            old(self).wf() ==> final(self).wf(),
    {
        let now = Timestamp::now();
        self.toggle_timer_at(now);
        assert(*self == old(self).toggled(now));
    }

    /// Stops the timer, drops the open session without recording it and
    /// sets the countdown to the full length of the current mode.
    pub fn reset_timer(&mut self)
        ensures
            *final(self) == old(self).reset(),
            old(self).wf() ==> final(self).wf(),
    {
        self.timer_running = false;
        self.session_start = None;
        self.remaining_seconds = self.configured_duration(self.mode);
    }

    /// Ends the interval of the current mode at time `now`: records the open
    /// session, if there is one, then changes to the other mode at its full
    /// length, stopped, with no session open.
    pub fn complete_session(&mut self, now: Timestamp) -> (done: Completion)
        ensures
            done == (Completion { finished: old(self).mode, recorded: old(self).session_start is Some }),
            *final(self) == (App { db: final(self).db, ..old(self).next_interval() }),
            final(self).session_start is None,
            old(self).store_after_completion(now, final(self).db),
            old(self).wf() ==> final(self).wf(),
    {
        let finished = self.mode;
        let mut recorded = false;
        if let Some(start) = self.session_start {
            let seconds = self.configured_duration(finished);
            let duration: i64 = if seconds <= i64::MAX as u64 {
                seconds as i64
            } else {
                i64::MAX
            };
            match self.selected_tag() {
                Some(tag) => {
                    let tag = tag.to_owned();
                    self.db.save_session(&start, &now, duration, tag.as_str(), finished);
                },
                None => {
                    self.db.save_session(&start, &now, duration, "Work", finished);
                },
            }
            recorded = true;
        }
        self.session_start = None;
        self.mode = finished.counterpart();
        self.remaining_seconds = self.configured_duration(self.mode);
        self.timer_running = false;
        Completion { finished, recorded }
    }

    /// Advances the countdown by one second at time `now`. A timer that is
    /// paused or at zero is left as it is. Otherwise the countdown drops by
    /// one, and where that takes it to zero the interval is completed
    /// within the same tick and the completion is reported.
    pub fn tick_at(&mut self, now: Timestamp) -> (done: Option<Completion>)
        ensures
            *final(self) == (App { db: final(self).db, ..old(self).ticked() }),
            done == old(self).completion(),
            old(self).store_after_tick(now, final(self).db),
            old(self).wf() ==> final(self).wf(),
    {
        if self.timer_running && self.remaining_seconds > 0 {
            if self.remaining_seconds == 1 {
                return Some(self.complete_session(now));
            }
            self.remaining_seconds = self.remaining_seconds - 1;
        }
        None
    }

    /// Advances the countdown by one second, at the time the local wall
    /// clock shows. The clock only decides the end time of a session
    /// recorded on completion: everything else is as `tick_at` says.
    pub fn tick(&mut self) -> (done: Option<Completion>)
        ensures
            *final(self) == (App { db: final(self).db, ..old(self).ticked() }),
            done == old(self).completion(),
            exists|now: Timestamp| #[trigger] old(self).store_after_tick(now, final(self).db),
            old(self).wf() ==> final(self).wf(),
    {
        let now = Timestamp::now();
        let done = self.tick_at(now);
        assert(old(self).store_after_tick(now, self.db));
        done
    }

    /// Moves the work length by `delta` seconds, kept within its bounds, and
    /// stores it. A timer that is paused in work mode takes the new length
    /// as its countdown at once; a running one keeps counting.
    pub fn adjust_work_duration(&mut self, delta: i64)
        ensures
            old(self).work_adjusted(delta, *final(self)),
            old(self).wf() ==> final(self).wf(),
    {
        let seconds = clamp_i64_to(self.work_duration, delta, WORK_MIN, WORK_MAX);
        self.work_duration = seconds;
        let mut text = String::new();
        push_decimal(&mut text, seconds);
        self.db.set_config("work_duration", text.as_str());
        if self.mode == PomodoroMode::Work && !self.timer_running {
            self.remaining_seconds = seconds;
        }
    }

    /// Moves the break length by `delta` seconds, kept within its bounds,
    /// and stores it. A timer that is paused in break mode takes the new
    /// length as its countdown at once; a running one keeps counting.
    pub fn adjust_break_duration(&mut self, delta: i64)
        ensures
            old(self).break_adjusted(delta, *final(self)),
            old(self).wf() ==> final(self).wf(),
    {
        let seconds = clamp_i64_to(self.break_duration, delta, BREAK_MIN, BREAK_MAX);
        self.break_duration = seconds;
        let mut text = String::new();
        push_decimal(&mut text, seconds);
        self.db.set_config("break_duration", text.as_str());
        if self.mode == PomodoroMode::Break && !self.timer_running {
            self.remaining_seconds = seconds;
        }
    }

    /// The countdown as minutes and seconds, each with at least two digits:
    /// `MM:SS`.
    pub fn format_time(&self) -> (text: String)
        ensures
            text@ == zero_padded((self.remaining_seconds / 60) as nat, 2) + seq![':'] + zero_padded(
                (self.remaining_seconds % 60) as nat,
                2,
            ),
    {
        let mut text = String::new();
        push_padded(&mut text, self.remaining_seconds / 60, 2);
        proof {
            reveal_strlit(":");
        }
        text.append(":");
        push_padded(&mut text, self.remaining_seconds % 60, 2);
        assert(text@ =~= zero_padded((self.remaining_seconds / 60) as nat, 2) + seq![':'] + zero_padded(
            (self.remaining_seconds % 60) as nat,
            2,
        ));
        text
    }

    /// Shows `screen` and remembers the screen that was shown.
    pub fn navigate_to(&mut self, screen: Screen)
        ensures
            *final(self) == old(self).navigated(screen),
    {
        self.previous_screen = self.current_screen;
        self.current_screen = screen;
    }

    /// Changes between the weekly and the monthly view.
    pub fn toggle_stats_view(&mut self)
        ensures
            *final(self) == old(self).with_other_view(),
    {
        self.stats_view = match self.stats_view {
            StatsView::Weekly => StatsView::Monthly,
            StatsView::Monthly => StatsView::Weekly,
        };
    }

    /// Selects the next tag, the first after the last. Without tags nothing
    /// changes.
    pub fn next_tag(&mut self)
        ensures
            *final(self) == old(self).with_next_tag(),
            old(self).wf() ==> final(self).wf(),
    {
        let n = self.tags.len();
        if n > 0 {
            self.selected_tag_index = ((self.selected_tag_index as u128 + 1) % (n as u128)) as usize;
        }
    }

    /// Selects the previous tag, the last before the first. Without tags
    /// nothing changes.
    pub fn prev_tag(&mut self)
        ensures
            *final(self) == old(self).with_prev_tag(),
            old(self).wf() ==> final(self).wf(),
    {
        let n = self.tags.len();
        if n > 0 {
            self.selected_tag_index = if self.selected_tag_index == 0 {
                n - 1
            } else {
                self.selected_tag_index - 1
            };
        }
    }

    /// Moves the tag filter of the statistics on by one: from all tags to
    /// the first tag, from the last tag back to all tags.
    pub fn next_stats_tag(&mut self)
        ensures
            *final(self) == old(self).with_next_stats_tag(),
    {
        self.stats_tag_index = ((self.stats_tag_index as u128 + 1) % (self.tags.len() as u128 + 1)) as usize;
    }

    /// Moves the tag filter of the statistics back by one: from all tags to
    /// the last tag.
    pub fn prev_stats_tag(&mut self)
        ensures
            *final(self) == old(self).with_prev_stats_tag(),
    {
        if self.stats_tag_index == 0 {
            self.stats_tag_index = self.tags.len();
        } else {
            self.stats_tag_index = self.stats_tag_index - 1;
        }
    }

    /// The tag the statistics are filtered to; `None` stands for all tags.
    pub fn get_stats_tag(&self) -> (tag: Option<&str>)
        ensures
            tag is Some <==> 1 <= self.stats_tag_index <= self.tags@.len(),
            tag matches Some(t) ==> t@ == self.tags@[self.stats_tag_index - 1]@,
    {
        if self.stats_tag_index == 0 || self.stats_tag_index > self.tags.len() {
            None
        } else {
            Some(self.tags[self.stats_tag_index - 1].as_str())
        }
    }

    /// The tag that a confirmed deletion removes: the selected one.
    pub fn get_tag_to_delete(&self) -> (tag: Option<&str>)
        ensures
            tag is Some <==> self.selected_tag_index < self.tags@.len(),
            tag matches Some(t) ==> t@ == self.tags@[self.selected_tag_index as int]@,
    {
        self.selected_tag()
    }

    /// The engine over a store: paused at the start of a work interval, on
    /// the home screen, with the store's tags and the first of them
    /// selected. Each length is what the store configures, the default
    /// where that is missing or no number, moved into its bounds.
    pub fn new(db: Database) -> (app: App)
        ensures
            app.wf(),
            app.db == db,
            texts(app.tags@) == db.tags(),
            app.work_duration == clamped(
                configured_seconds(db.settings(), "work_duration"@, WORK_DEFAULT) as int,
                WORK_MIN as int,
                WORK_MAX as int,
            ),
            app.break_duration == clamped(
                configured_seconds(db.settings(), "break_duration"@, BREAK_DEFAULT) as int,
                BREAK_MIN as int,
                BREAK_MAX as int,
            ),
            app.mode == PomodoroMode::Work,
            app.remaining_seconds == app.work_duration,
            !app.timer_running,
            app.session_start is None,
            app.selected_tag_index == 0,
            app.stats_tag_index == 0,
            app.current_screen == Screen::Home,
            app.previous_screen == Screen::Home,
            app.stats_view == StatsView::Weekly,
            app.input_mode == InputMode::Normal,
            app.input_buffer@ == Seq::<char>::empty(),
            !app.should_quit,
    {
        let tags = db.get_tags();
        let work = read_seconds(&db, "work_duration", WORK_DEFAULT);
        let rest = read_seconds(&db, "break_duration", BREAK_DEFAULT);
        let work_duration = clamp_i64_to(work, 0, WORK_MIN, WORK_MAX);
        let break_duration = clamp_i64_to(rest, 0, BREAK_MIN, BREAK_MAX);
        App {
            current_screen: Screen::Home,
            previous_screen: Screen::Home,
            timer_running: false,
            mode: PomodoroMode::Work,
            remaining_seconds: work_duration,
            selected_tag_index: 0,
            tags,
            work_duration,
            break_duration,
            db,
            should_quit: false,
            stats_view: StatsView::Weekly,
            stats_tag_index: 0,
            input_mode: InputMode::Normal,
            input_buffer: String::new(),
            session_start: None,
        }
    }

    /// Adds a tag to the list and to the store, unless the name is empty or
    /// listed already.
    pub fn add_tag(&mut self, name: String)
        ensures
            old(self).tag_added(name, *final(self)),
            old(self).wf() ==> final(self).wf(),
    {
        if !name.as_str().is_empty() && !holds_text(&self.tags, name.as_str()) {
            self.db.add_tag(name.as_str());
            self.tags.push(name);
        }
    }

    /// Removes the selected tag from the list and from the store. Where it
    /// was the last of the list, the selection moves to the new last tag.
    pub fn delete_selected_tag(&mut self)
        ensures
            old(self).selected_tag_deleted(*final(self)),
            old(self).wf() ==> final(self).wf(),
    {
        if self.selected_tag_index < self.tags.len() {
            let gone = self.tags.remove(self.selected_tag_index);
            self.db.delete_tag(gone.as_str());
            if self.selected_tag_index >= self.tags.len() && self.tags.len() > 0 {
                self.selected_tag_index = self.tags.len() - 1;
            }
        }
    }

    /// Takes the tag list anew from the store.
    pub fn refresh_tags(&mut self)
        ensures
            *final(self) == (App { tags: final(self).tags, ..*old(self) }),
            texts(final(self).tags@) == old(self).db.tags(),
    {
        self.tags = self.db.get_tags();
    }
}

/// The number of seconds stored under `key`, or `fallback` where nothing is
/// stored or what is stored is no number.
pub open spec fn configured_seconds(settings: Map<Seq<char>, Seq<char>>, key: Seq<char>, fallback: u64) -> u64 {
    if settings.contains_key(key) {
        match parsed_number(settings[key]) {
            Some(seconds) => seconds,
            None => fallback,
        }
    } else {
        fallback
    }
}

/// Reads the number of seconds stored under `key`.
fn read_seconds(db: &Database, key: &str, fallback: u64) -> (seconds: u64)
    ensures
        seconds == configured_seconds(db.settings(), key@, fallback),
{
    let absent = "";
    proof {
        reveal_strlit("");
        assert(parsed_number(""@) is None);
    }
    let stored = db.get_config(key, absent);
    match parse_number(stored.as_str()) {
        Some(seconds) => seconds,
        None => fallback,
    }
}

/// A tick changes nothing while the timer is paused, and nothing while the
/// countdown stands at zero.
pub proof fn lemma_idle_tick_is_noop(app: App)
    requires
        !app.timer_running || app.remaining_seconds == 0,
    ensures
        app.ticked() == app,
        !app.completing(),
{
}

/// The tick that takes a running countdown from its last second to zero
/// leaves the timer in the other mode, at that mode's configured length,
/// and stopped, with no session open.
pub proof fn lemma_last_second_changes_mode(app: App)
    requires
        app.timer_running,
        app.remaining_seconds == 1,
    ensures
        app.completing(),
        app.ticked().mode == app.mode.flipped(),
        app.ticked().mode != app.mode,
        app.ticked().remaining_seconds == app.duration_of(app.mode.flipped()),
        !app.ticked().timer_running,
        app.ticked().session_start is None,
{
}

/// An interval completes once for each time the countdown crosses from one
/// to zero: a tick completes only from a running countdown at its last
/// second, and after it has completed no further tick does until the timer
/// has been started again.
pub proof fn lemma_completion_fires_once(app: App)
    ensures
        app.completing() ==> !app.ticked().completing() && app.ticked().ticked() == app.ticked(),
        app.remaining_seconds != 1 ==> !app.completing(),
        app.counting() && !app.completing() ==> app.ticked().remaining_seconds == app.remaining_seconds - 1
            && app.ticked().mode == app.mode,
{
}

/// A reset leaves the store as it is: it records no session, however much
/// of the interval has passed.
pub proof fn lemma_reset_records_nothing(app: App)
    ensures
        app.reset().db == app.db,
        app.reset().db.log() == app.db.log(),
        app.reset().session_start is None,
        !app.reset().timer_running,
        app.reset().remaining_seconds == app.duration_of(app.mode),
{
}

/// A duration that is adjusted stays within its bounds: a delta that
/// would take it below the lower bound gives the lower bound, one that
/// would take it above the upper bound gives the upper bound.
pub proof fn lemma_adjustment_clamps(app: App, delta: i64, after: App)
    ensures
        app.work_adjusted(delta, after) ==> WORK_MIN <= after.work_duration <= WORK_MAX,
        app.work_adjusted(delta, after) && app.work_duration + delta < WORK_MIN ==> after.work_duration
            == WORK_MIN,
        app.work_adjusted(delta, after) && app.work_duration + delta > WORK_MAX ==> after.work_duration
            == WORK_MAX,
        app.break_adjusted(delta, after) ==> BREAK_MIN <= after.break_duration <= BREAK_MAX,
        app.break_adjusted(delta, after) && app.break_duration + delta < BREAK_MIN ==> after.break_duration
            == BREAK_MIN,
        app.break_adjusted(delta, after) && app.break_duration + delta > BREAK_MAX ==> after.break_duration
            == BREAK_MAX,
{
}

/// Starting, pausing and starting again keeps the session that the first
/// start opened; no toggle ever closes a session, nor does a tick that does
/// not complete the interval. A reset and a completion do close it, and the
/// start that follows either of them opens a session of its own.
pub proof fn lemma_toggle_keeps_session(app: App, first: Timestamp, second: Timestamp, third: Timestamp)
    ensures
        !app.timer_running ==> app.toggled(first).toggled(second).toggled(third).session_start == app.toggled(
            first,
        ).session_start,
        !app.timer_running ==> app.toggled(first).session_start is Some,
        app.session_start is Some ==> app.toggled(first).session_start == app.session_start,
        !app.completing() ==> app.ticked().session_start == app.session_start,
        app.toggled(first).remaining_seconds == app.remaining_seconds,
        app.reset().session_start is None,
        app.reset().toggled(first).session_start == Some(first),
        app.next_interval().session_start is None,
        app.next_interval().toggled(first).session_start == Some(first),
        app.completing() ==> app.ticked().toggled(first).session_start == Some(first),
{
}

/// A running countdown of `n` seconds completes with the `n`-th tick and
/// with no other: the ticks before it only count down, the `n`-th changes
/// to the next interval, and every tick after it finds the timer stopped
/// and changes nothing.
pub proof fn lemma_countdown_completes_once(app: App, count: nat)
    requires
        app.timer_running,
        app.remaining_seconds >= 1,
    ensures
        count < app.remaining_seconds ==> app.ticked_times(count) == (App {
            remaining_seconds: (app.remaining_seconds - count) as u64,
            ..app
        }),
        count < app.remaining_seconds ==> (app.ticked_times(count).completing() <==> count + 1
            == app.remaining_seconds),
        count >= app.remaining_seconds ==> app.ticked_times(count) == app.next_interval(),
        count >= app.remaining_seconds ==> !app.ticked_times(count).completing(),
    decreases count,
{
    if count > 0 {
        lemma_countdown_completes_once(app, (count - 1) as nat);
    }
}

/// A recorded session ends after it started wherever the time handed to the
/// tick lies after the time the session was opened at.
pub proof fn lemma_record_ends_after_start(app: App, now: Timestamp, session: Session)
    requires
        app.records(now, session),
        app.session_start matches Some(opened) && opened.instant() < now.instant(),
    ensures
        session.start_time.instant() < session.end_time.instant(),
        session.duration == recorded_duration(app.duration_of(app.mode)),
        app.wf() ==> session.duration == app.duration_of(app.mode),
{
}

} // verus!
