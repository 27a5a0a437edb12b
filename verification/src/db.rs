//! The store behind the timer: the session log, the tag list and the
//! configuration, and the summaries computed from the log.

use vstd::prelude::*;
use vstd::string::*;
use crate::app::PomodoroMode;
use crate::calendar::{
    day_label, format_day, format_month, lemma_month_text_ascends, month_of, month_text, reading_of_text,
    Timestamp, FIRST_MONTH, LAST_MONTH, MAX_DAY, MIN_DAY,
};
use crate::stats::{
    active_days, counted, counted_on, day_active, day_total, day_totals_fit, days_in_range, fits_i64,
    heatmap_outcome, is_day_summary, is_monthly_summary, labels_descend, latest_before,
    lemma_recent_months, lemma_recent_prefix, month_keys, month_total, monthly_totals_fit,
    months_in_range, recent_months, tag_filter, total_of_day, weekly_outcome, StatsError, HEATMAP_SPAN,
    MONTH_CAP, WEEK_SPAN,
};
use crate::text::{
    is_text_before, lemma_ascending_distinct, lemma_text_before_connected, lemma_text_before_irreflexive,
    lemma_text_before_transitive, same_text, strictly_ascending, text_before,
};

verus! {

/// One completed interval.
#[derive(Debug, Clone)]
pub struct Session {
    pub id: i64,
    pub start_time: Timestamp,
    pub end_time: Timestamp,
    pub duration: i64,
    pub tag: String,
    pub session_type: PomodoroMode,
}

impl Session {
    /// Reads a session back from the texts it is stored as: both times as
    /// `YYYY-MM-DD HH:MM:SS`, the mode as `work` or `break`. `None` where a
    /// time does not parse, lies outside the valid range, or the mode is
    /// neither of the two.
    pub fn from_row(
        id: i64,
        start_time: &str,
        end_time: &str,
        duration: i64,
        tag: &str,
        session_type: &str,
    ) -> (row: Option<Session>)
        ensures
            row is Some <==> Timestamp::reading_in_range(reading_of_text(start_time@)) is Some
                && Timestamp::reading_in_range(reading_of_text(end_time@)) is Some && PomodoroMode::named(
                session_type@,
            ) is Some,
            row matches Some(s) ==> {
                &&& s.id == id
                &&& Some(s.start_time) == Timestamp::reading_in_range(reading_of_text(start_time@))
                &&& Some(s.end_time) == Timestamp::reading_in_range(reading_of_text(end_time@))
                &&& s.duration == duration
                &&& s.tag@ == tag@
                &&& Some(s.session_type) == PomodoroMode::named(session_type@)
            },
    {
        let start = match Timestamp::parse(start_time) {
            Some(t) => t,
            None => {
                return None;
            },
        };
        let end = match Timestamp::parse(end_time) {
            Some(t) => t,
            None => {
                return None;
            },
        };
        let mode = match PomodoroMode::from_name(session_type) {
            Some(m) => m,
            None => {
                return None;
            },
        };
        Some(Session { id, start_time: start, end_time: end, duration, tag: tag.to_owned(), session_type: mode })
    }
}

/// The store behind the timer: the append-only session log, the tag list
/// and the key/value configuration.
pub struct Database {
    sessions: Vec<Session>,
    tags: Vec<String>,
    config: Vec<(String, String)>,
}

/// The id of the session that is appended to a log of `held` sessions: one
/// more than their number, as far as ids go.
pub open spec fn next_id(held: nat) -> i64 {
    if held < i64::MAX {
        (held + 1) as i64
    } else {
        i64::MAX
    }
}

/// The characters of each text of a list.
pub open spec fn texts(list: Seq<String>) -> Seq<Seq<char>> {
    list.map_values(|t: String| t@)
}

/// The configuration that a list of entries writes: each entry sets its key,
/// a later entry for the same key replacing an earlier one.
pub open spec fn settings_of(entries: Seq<(String, String)>) -> Map<Seq<char>, Seq<char>>
    decreases entries.len(),
{
    if entries.len() == 0 {
        Map::empty()
    } else {
        settings_of(entries.drop_last()).insert(entries.last().0@, entries.last().1@)
    }
}

/// The value stored under `key`, or `fallback` where nothing is stored.
pub open spec fn setting_or(settings: Map<Seq<char>, Seq<char>>, key: Seq<char>, fallback: Seq<char>) -> Seq<
    char,
> {
    if settings.contains_key(key) {
        settings[key]
    } else {
        fallback
    }
}

/// The texts of `list` that `other` does not hold, in the order of `list`.
pub open spec fn missing_from(list: Seq<Seq<char>>, other: Seq<Seq<char>>) -> Seq<Seq<char>>
    decreases list.len(),
{
    if list.len() == 0 {
        Seq::empty()
    } else if other.contains(list.last()) {
        missing_from(list.drop_last(), other)
    } else {
        missing_from(list.drop_last(), other).push(list.last())
    }
}

/// Replacing the last entry for a key writes the same configuration as
/// setting that key.
pub proof fn lemma_replace_last(entries: Seq<(String, String)>, i: int, entry: (String, String))
    requires
        0 <= i < entries.len(),
        entries[i].0@ == entry.0@,
        forall|j: int| i < j < entries.len() ==> (#[trigger] entries[j]).0@ != entry.0@,
    ensures
        settings_of(entries.update(i, entry)) == settings_of(entries).insert(entry.0@, entry.1@),
    decreases entries.len(),
{
    let changed = entries.update(i, entry);
    if i == entries.len() - 1 {
        assert(changed.drop_last() =~= entries.drop_last());
    } else {
        lemma_replace_last(entries.drop_last(), i, entry);
        assert(changed.drop_last() =~= entries.drop_last().update(i, entry));
        assert(changed.last() == entries.last());
    }
    assert(settings_of(changed) =~= settings_of(entries).insert(entry.0@, entry.1@));
}

/// A month number as an integer of specifications.
spec fn lift(key: Option<i32>) -> Option<int> {
    match key {
        Some(k) => Some(k as int),
        None => None,
    }
}

/// Month numbers as integers of specifications.
spec fn lifted(keys: Seq<Option<i32>>) -> Seq<Option<int>> {
    Seq::new(keys.len(), |i: int| lift(keys[i]))
}

impl Database {
    #[verifier::type_invariant]
    closed spec fn tags_in_order(self) -> bool {
        strictly_ascending(texts(self.tags@))
    }

    /// The session log, oldest first.
    pub closed spec fn log(&self) -> Seq<Session> {
        self.sessions@
    }

    /// The tag names, in the order they are listed.
    pub closed spec fn tags(&self) -> Seq<Seq<char>> {
        texts(self.tags@)
    }

    /// The configuration: the value stored under each key.
    pub closed spec fn settings(&self) -> Map<Seq<char>, Seq<char>> {
        settings_of(self.config@)
    }

    /// A fresh store: no sessions, nothing configured, and the two tags
    /// every store starts with, `Study` and `Work`.
    pub fn new() -> (store: Database)
        ensures
            store.log() == Seq::<Session>::empty(),
            store.tags() == seq!["Study"@, "Work"@],
            store.settings() == Map::<Seq<char>, Seq<char>>::empty(),
    {
        let mut tags: Vec<String> = Vec::new();
        tags.push("Study".to_owned());
        tags.push("Work".to_owned());
        proof {
            reveal_strlit("Study");
            reveal_strlit("Work");
            assert(texts(tags@) =~= seq!["Study"@, "Work"@]);
            assert(text_before("Study"@, "Work"@));
        }
        Database { sessions: Vec::new(), tags, config: Vec::new() }
    }

    /// A store over what a previous run has saved: the log and the
    /// configuration entries as they are, the tag names in ascending order
    /// with each name once. A store without any tag starts with the two
    /// tags of a fresh one.
    pub fn restore(sessions: Vec<Session>, tags: Vec<String>, config: Vec<(String, String)>) -> (store: Database)
        ensures
            store.log() == sessions@,
            store.settings() == settings_of(config@),
            strictly_ascending(store.tags()),
            tags@.len() > 0 ==> forall|t: Seq<char>| store.tags().contains(t) <==> texts(tags@).contains(t),
            tags@.len() == 0 ==> store.tags() == seq!["Study"@, "Work"@],
    {
        if tags.len() == 0 {
            let fresh = Database::new();
            proof {
                use_type_invariant(&fresh);
            }
            return Database { sessions, tags: fresh.tags, config };
        }
        let mut store = Database { sessions, tags: Vec::new(), config };
        let mut i: usize = 0;
        while i < tags.len()
            invariant
                i <= tags@.len(),
                store.log() == sessions@,
                store.settings() == settings_of(config@),
                forall|t: Seq<char>| store.tags().contains(t) <==> texts(tags@.take(i as int)).contains(t),
            decreases tags@.len() - i,
        {
            store.add_tag(tags[i].as_str());
            proof {
                let upto = texts(tags@.take(i as int));
                let next = texts(tags@.take(i + 1));
                assert(next =~= upto.push(tags@[i as int]@));
                assert forall|t: Seq<char>| store.tags().contains(t) <==> next.contains(t) by {
                    if upto.contains(t) {
                        let k = choose|k: int| 0 <= k < upto.len() && upto[k] == t;
                        assert(next[k] == t);
                    }
                    if t == tags@[i as int]@ {
                        assert(next[i as int] == t);
                    }
                    if next.contains(t) {
                        let k = choose|k: int| 0 <= k < next.len() && next[k] == t;
                        if k < i {
                            assert(upto[k] == t);
                        }
                    }
                }
            }
            i = i + 1;
        }
        proof {
            use_type_invariant(&store);
            assert(tags@.take(tags@.len() as int) =~= tags@);
        }
        store
    }

    /// What has to change in a stored tag list to make it hold the tags of
    /// this store: first the tags it lacks, then the tags it holds that this
    /// store does not.
    pub fn tag_changes(&self, stored: &Vec<String>) -> (changes: (Vec<String>, Vec<String>))
        ensures
            texts(changes.0@) == missing_from(self.tags(), texts(stored@)),
            texts(changes.1@) == missing_from(texts(stored@), self.tags()),
    {
        let to_add = texts_missing(&self.tags, stored);
        let to_remove = texts_missing(stored, &self.tags);
        (to_add, to_remove)
    }

    /// The session log, oldest first.
    pub fn sessions(&self) -> (log: &Vec<Session>)
        ensures
            log@ == self.log(),
    {
        &self.sessions
    }

    /// The tag names, in ascending order.
    pub fn get_tags(&self) -> (names: Vec<String>)
        ensures
            texts(names@) == self.tags(),
            strictly_ascending(self.tags()),
    {
        proof {
            use_type_invariant(self);
        }
        let mut names: Vec<String> = Vec::new();
        let mut i: usize = 0;
        while i < self.tags.len()
            invariant
                i <= self.tags@.len(),
                names@.len() == i,
                forall|j: int| 0 <= j < i ==> (#[trigger] names@[j])@ == self.tags@[j]@,
            decreases self.tags@.len() - i,
        {
            names.push(self.tags[i].clone());
            i = i + 1;
        }
        assert(texts(names@) =~= texts(self.tags@));
        names
    }

    /// Adds a tag name, unless it is there already.
    pub fn add_tag(&mut self, name: &str)
        ensures
            forall|t: Seq<char>| final(self).tags().contains(t) <==> old(self).tags().contains(t) || t == name@,
            strictly_ascending(final(self).tags()),
            old(self).tags().contains(name@) ==> final(self).tags() == old(self).tags(),
            !old(self).tags().contains(name@) ==> final(self).tags().len() == old(self).tags().len() + 1,
            final(self).log() == old(self).log(),
            final(self).settings() == old(self).settings(),
    {
        proof {
            use_type_invariant(&*self);
        }
        let ghost before = texts(self.tags@);
        let n = self.tags.len();
        let mut at: usize = 0;
        while at < n && is_text_before(self.tags[at].as_str(), name)
            invariant
                at <= n,
                n == self.tags@.len(),
                *self == *old(self),
                before == texts(self.tags@),
                forall|j: int| 0 <= j < at ==> text_before(#[trigger] before[j], name@),
            decreases n - at,
        {
            at = at + 1;
        }
        if at < n && same_text(self.tags[at].as_str(), name) {
            assert(before[at as int] == name@);
            return;
        }
        proof {
            assert forall|j: int| at <= j < n implies text_before(name@, #[trigger] before[j]) by {
                if !text_before(name@, before[at as int]) {
                    lemma_text_before_connected(before[at as int], name@);
                }
                if j > at {
                    lemma_text_before_transitive(name@, before[at as int], before[j]);
                }
            }
            assert forall|j: int| 0 <= j < n implies #[trigger] before[j] != name@ by {
                lemma_text_before_irreflexive(name@);
            }
        }
        let mut tags: Vec<String> = Vec::new();
        std::mem::swap(&mut self.tags, &mut tags);
        tags.insert(at, name.to_owned());
        proof {
            let after = texts(tags@);
            assert(after =~= before.insert(at as int, name@));
            assert forall|i: int, j: int| 0 <= i < j < after.len() implies text_before(
                #[trigger] after[i],
                #[trigger] after[j],
            ) by {
                let x = if i < at { i } else { i - 1 };
                let y = if j < at { j } else { j - 1 };
                if i != at && j != at {
                    assert(after[i] == before[x] && after[j] == before[y]);
                } else if i == at {
                    assert(after[j] == before[y]);
                } else {
                    assert(after[i] == before[x]);
                }
            }
            assert forall|t: Seq<char>| after.contains(t) <==> before.contains(t) || t == name@ by {
                if after.contains(t) {
                    let k = choose|k: int| 0 <= k < after.len() && after[k] == t;
                    if k < at {
                        assert(before[k] == t);
                    } else if k > at {
                        assert(before[k - 1] == t);
                    }
                }
                if before.contains(t) {
                    let k = choose|k: int| 0 <= k < before.len() && before[k] == t;
                    if k < at {
                        assert(after[k] == t);
                    } else {
                        assert(after[k + 1] == t);
                    }
                }
                if t == name@ {
                    assert(after[at as int] == t);
                }
            }
        }
        std::mem::swap(&mut self.tags, &mut tags);
    }

    /// Removes a tag name, if it is there.
    pub fn delete_tag(&mut self, name: &str)
        ensures
            forall|t: Seq<char>| final(self).tags().contains(t) <==> old(self).tags().contains(t) && t != name@,
            strictly_ascending(final(self).tags()),
            !old(self).tags().contains(name@) ==> final(self).tags() == old(self).tags(),
            old(self).tags().contains(name@) ==> final(self).tags().len() == old(self).tags().len() - 1,
            final(self).log() == old(self).log(),
            final(self).settings() == old(self).settings(),
    {
        proof {
            use_type_invariant(&*self);
        }
        let ghost before = texts(self.tags@);
        let n = self.tags.len();
        let mut at: usize = 0;
        while at < n && !same_text(self.tags[at].as_str(), name)
            invariant
                at <= n,
                n == self.tags@.len(),
                *self == *old(self),
                before == texts(self.tags@),
                forall|j: int| 0 <= j < at ==> #[trigger] before[j] != name@,
            decreases n - at,
        {
            at = at + 1;
        }
        if at == n {
            return;
        }
        proof {
            lemma_ascending_distinct(before);
        }
        let mut tags: Vec<String> = Vec::new();
        std::mem::swap(&mut self.tags, &mut tags);
        let gone = tags.remove(at);
        proof {
            let after = texts(tags@);
            assert(after =~= before.remove(at as int));
            assert(before[at as int] == name@);
            assert forall|i: int, j: int| 0 <= i < j < after.len() implies text_before(
                #[trigger] after[i],
                #[trigger] after[j],
            ) by {
                let x = if i < at { i } else { i + 1 };
                let y = if j < at { j } else { j + 1 };
                assert(after[i] == before[x] && after[j] == before[y]);
            }
            assert forall|t: Seq<char>| after.contains(t) <==> before.contains(t) && t != name@ by {
                if after.contains(t) {
                    let k = choose|k: int| 0 <= k < after.len() && after[k] == t;
                    let x = if k < at { k } else { k + 1 };
                    assert(before[x] == t);
                }
                if before.contains(t) && t != name@ {
                    let k = choose|k: int| 0 <= k < before.len() && before[k] == t;
                    if k < at {
                        assert(after[k] == t);
                    } else {
                        assert(after[k - 1] == t);
                    }
                }
            }
        }
        std::mem::swap(&mut self.tags, &mut tags);
    }

    /// The value stored under `key`, or `default` where nothing is stored.
    pub fn get_config(&self, key: &str, default: &str) -> (value: String)
        ensures
            value@ == setting_or(self.settings(), key@, default@),
    {
        let mut i: usize = self.config.len();
        assert(self.config@.take(i as int) =~= self.config@);
        while i > 0
            invariant
                i <= self.config@.len(),
                setting_or(settings_of(self.config@), key@, default@) == setting_or(
                    settings_of(self.config@.take(i as int)),
                    key@,
                    default@,
                ),
            decreases i,
        {
            let ghost upto = self.config@.take(i as int);
            assert(upto.drop_last() =~= self.config@.take(i - 1));
            assert(upto.last() == self.config@[i - 1]);
            i = i - 1;
            let entry = &self.config[i];
            if same_text(entry.0.as_str(), key) {
                return entry.1.clone();
            }
        }
        assert(self.config@.take(0) =~= Seq::<(String, String)>::empty());
        default.to_owned()
    }

    /// Stores `value` under `key`, in place of what was stored there.
    pub fn set_config(&mut self, key: &str, value: &str)
        ensures
            final(self).settings() == old(self).settings().insert(key@, value@),
            final(self).log() == old(self).log(),
            final(self).tags() == old(self).tags(),
    {
        proof {
            use_type_invariant(&*self);
        }
        let entry = (key.to_owned(), value.to_owned());
        let mut i: usize = self.config.len();
        while i > 0
            invariant
                i <= self.config@.len(),
                *self == *old(self),
                strictly_ascending(texts(self.tags@)),
                entry.0@ == key@,
                entry.1@ == value@,
                forall|j: int| i <= j < self.config@.len() ==> (#[trigger] self.config@[j]).0@ != key@,
            decreases i,
        {
            i = i - 1;
            if same_text(self.config[i].0.as_str(), key) {
                proof {
                    lemma_replace_last(self.config@, i as int, entry);
                }
                let mut config: Vec<(String, String)> = Vec::new();
                std::mem::swap(&mut self.config, &mut config);
                config.set(i, entry);
                std::mem::swap(&mut self.config, &mut config);
                return;
            }
        }
        let mut config: Vec<(String, String)> = Vec::new();
        std::mem::swap(&mut self.config, &mut config);
        config.push(entry);
        std::mem::swap(&mut self.config, &mut config);
        assert(self.config@.drop_last() =~= old(self).config@);
    }

    /// The daily totals from day `first` to day `last`, in ascending order
    /// of day; the overflow error where one of them does not fit in 64 bits.
    fn window_totals(&self, tag: Option<&str>, first: i32, last: i32) -> (rows: Result<
        Vec<(i32, i64)>,
        StatsError,
    >)
        requires
            first <= last < i32::MAX,
        ensures
            rows is Ok <==> day_totals_fit(self.log(), tag_filter(tag), first as int, last as int),
            rows matches Ok(r) ==> is_day_summary(self.log(), tag_filter(tag), first as int, last as int, r@),
            rows matches Ok(r) ==> forall|i: int|
                0 <= i < r@.len() ==> MIN_DAY <= (#[trigger] r@[i]).0 <= MAX_DAY,
            rows matches Err(e) ==> e == StatsError::TotalOverflow,
    {
        let ghost filter = tag_filter(tag);
        let ghost log = self.log();
        let mut rows: Vec<(i32, i64)> = Vec::new();
        let mut day: i32 = first;
        while day <= last
            invariant
                first <= day <= last + 1,
                last < i32::MAX,
                log == self.log(),
                filter == tag_filter(tag),
                is_day_summary(log, filter, first as int, day - 1, rows@),
                day_totals_fit(log, filter, first as int, day - 1),
                forall|i: int| 0 <= i < rows@.len() ==> MIN_DAY <= (#[trigger] rows@[i]).0 <= MAX_DAY,
            decreases last + 1 - day,
        {
            let (active, total) = self.scan_day(tag, day);
            if active {
                if total < i64::MIN as i128 || total > i64::MAX as i128 {
                    return Err(StatsError::TotalOverflow);
                }
                rows.push((day, total as i64));
            }
            day = day + 1;
        }
        Ok(rows)
    }

    /// The weekly summary as of the day of `today`: for each of the last
    /// `WEEK_SPAN` days and today on which a counted session started, the
    /// day's label and the total of the durations, in ascending order of day.
    /// With `tag` only sessions with that tag are counted. Fails exactly
    /// where one of the totals does not fit in 64 bits.
    pub fn weekly_stats_on(&self, tag: Option<&str>, today: &Timestamp) -> (summary: Result<
        Vec<(String, i64)>,
        StatsError,
    >)
        ensures
            weekly_outcome(self.log(), tag_filter(tag), today.day_number(), summary),
            summary matches Ok(buckets) ==> days_in_range(
                active_days(self.log(), tag_filter(tag), today.day_number() - WEEK_SPAN, today.day_number()),
            ),
    {
        let last: i32 = today.day();
        let rows = match self.window_totals(tag, last - WEEK_SPAN, last) {
            Ok(rows) => rows,
            Err(e) => {
                return Err(e);
            },
        };
        let ghost days = active_days(self.log(), tag_filter(tag), last - WEEK_SPAN, last as int);
        let mut buckets: Vec<(String, i64)> = Vec::new();
        let mut i: usize = 0;
        while i < rows.len()
            invariant
                i <= rows@.len(),
                rows@.len() == days.len(),
                buckets@.len() == i,
                forall|j: int| 0 <= j < rows@.len() ==> MIN_DAY <= (#[trigger] rows@[j]).0 <= MAX_DAY,
                forall|j: int|
                    0 <= j < i ==> (#[trigger] buckets@[j]).0@ == day_label(rows@[j].0 as int) && buckets@[j].1
                        == rows@[j].1,
            decreases rows@.len() - i,
        {
            let (day, total) = rows[i];
            buckets.push((format_day(day), total));
            i = i + 1;
        }
        proof {
            assert forall|k: int| 0 <= k < days.len() implies MIN_DAY <= #[trigger] days[k] <= MAX_DAY by {
                assert(rows@[k].0 == days[k]);
            }
        }
        Ok(buckets)
    }

    /// The weekly summary as of the local wall clock's day. The day is
    /// whatever the clock says; the summary is `weekly_stats_on` of it.
    pub fn get_weekly_stats(&self, tag: Option<&str>) -> (summary: Result<Vec<(String, i64)>, StatsError>)
        ensures
            exists|today: int|
                MIN_DAY <= today <= MAX_DAY && #[trigger] weekly_outcome(
                    self.log(),
                    tag_filter(tag),
                    today,
                    summary,
                ),
    {
        let today = Timestamp::now();
        let summary = self.weekly_stats_on(tag, &today);
        proof {
            assert(today.valid());
            assert(weekly_outcome(self.log(), tag_filter(tag), today.day_number(), summary));
        }
        summary
    }

    /// The heatmap data as of the day of `today`: for each of the last
    /// `HEATMAP_SPAN` days and today on which a work session started, the
    /// day and the total of the durations, in ascending order of day. Fails
    /// exactly where one of the totals does not fit in 64 bits.
    pub fn heatmap_data_on(&self, today: &Timestamp) -> (data: Result<Vec<(i32, i64)>, StatsError>)
        ensures
            heatmap_outcome(self.log(), today.day_number(), data),
            data matches Ok(rows) ==> forall|i: int|
                0 <= i < rows@.len() ==> MIN_DAY <= (#[trigger] rows@[i]).0 <= MAX_DAY,
    {
        let last: i32 = today.day();
        self.window_totals(None, last - HEATMAP_SPAN, last)
    }

    /// The heatmap data as of the local wall clock's day. The day is
    /// whatever the clock says; the data is `heatmap_data_on` of it.
    pub fn get_heatmap_data(&self) -> (data: Result<Vec<(i32, i64)>, StatsError>)
        ensures
            exists|today: int| MIN_DAY <= today <= MAX_DAY && #[trigger] heatmap_outcome(self.log(), today, data),
    {
        let today = Timestamp::now();
        let data = self.heatmap_data_on(&today);
        proof {
            assert(today.valid());
            assert(heatmap_outcome(self.log(), today.day_number(), data));
        }
        data
    }

    /// The total of the work sessions that started on the day of `today`,
    /// or 0 where it does not fit in 64 bits.
    pub fn total_on(&self, today: &Timestamp) -> (total: i64)
        ensures
            total == total_of_day(self.log(), today.day_number()),
    {
        let (active, total) = self.scan_day(None, today.day());
        if total < i64::MIN as i128 || total > i64::MAX as i128 {
            0
        } else {
            total as i64
        }
    }

    /// The total of the work sessions that started on the local wall
    /// clock's day. The day is whatever the clock says; the total is
    /// `total_on` of it.
    pub fn get_total_today(&self) -> (total: i64)
        ensures
            exists|today: int| MIN_DAY <= today <= MAX_DAY && total == total_of_day(self.log(), today),
    {
        let today = Timestamp::now();
        let total = self.total_on(&today);
        proof {
            assert(today.valid());
            assert(total == total_of_day(self.log(), today.day_number()));
        }
        total
    }

    /// The month number of each counted session of the log.
    fn collect_month_keys(&self, tag: Option<&str>) -> (keys: Vec<Option<i32>>)
        ensures
            lifted(keys@) == month_keys(self.log(), tag_filter(tag)),
            forall|i: int|
                0 <= i < keys@.len() && (#[trigger] keys@[i]) is Some ==> FIRST_MONTH <= keys@[i]->0
                    <= LAST_MONTH,
    {
        let ghost filter = tag_filter(tag);
        let n = self.sessions.len();
        let mut keys: Vec<Option<i32>> = Vec::new();
        let mut i: usize = 0;
        while i < n
            invariant
                i <= n,
                n == self.sessions@.len(),
                filter == tag_filter(tag),
                keys@.len() == i,
                forall|j: int| 0 <= j < i ==> lift(#[trigger] keys@[j]) == month_keys(self.sessions@, filter)[j],
                forall|j: int|
                    0 <= j < i && (#[trigger] keys@[j]) is Some ==> FIRST_MONTH <= keys@[j]->0 <= LAST_MONTH,
            decreases n - i,
        {
            let session = &self.sessions[i];
            if is_counted(session, tag) {
                keys.push(Some(month_of(session.start_time.day())));
            } else {
                keys.push(None);
            }
            i = i + 1;
        }
        assert(lifted(keys@) =~= month_keys(self.sessions@, filter));
        keys
    }

    /// Sum of the durations of the sessions whose month number is `month`.
    fn total_in_month(&self, tag: Option<&str>, keys: &Vec<Option<i32>>, month: i32) -> (total: i128)
        requires
            lifted(keys@) == month_keys(self.log(), tag_filter(tag)),
        ensures
            total == month_total(self.log(), tag_filter(tag), month as int),
    {
        let ghost filter = tag_filter(tag);
        let ghost log = self.sessions@;
        let n = self.sessions.len();
        assert(keys@.len() == n) by {
            assert(lifted(keys@).len() == month_keys(log, filter).len());
        }
        let mut total: i128 = 0;
        let mut i: usize = 0;
        while i < n
            invariant
                i <= n,
                n == log.len(),
                n == keys@.len(),
                log == self.sessions@,
                lifted(keys@) == month_keys(log, filter),
                total == month_total(log.take(i as int), filter, month as int),
                -(i as int) * 0x8000_0000_0000_0000 <= total <= (i as int) * 0x8000_0000_0000_0000,
            decreases n - i,
        {
            let ghost after = log.take(i + 1);
            proof {
                assert(after.drop_last() =~= log.take(i as int));
                assert(after.last() == log[i as int]);
                assert(month_keys(after, filter).last() == month_keys(log, filter)[i as int]);
                assert(lifted(keys@)[i as int] == lift(keys@[i as int]));
            }
            let hit = match keys[i] {
                Some(k) => k == month,
                None => false,
            };
            if hit {
                total = total + self.sessions[i].duration as i128;
            }
            i = i + 1;
        }
        assert(log.take(n as int) =~= log);
        total
    }

    /// The monthly summary: for each of the latest `MONTH_CAP` months in
    /// which a counted session started, the month's label and the total of
    /// the durations, latest month first. With `tag` only sessions with that
    /// tag are counted. Fails exactly where one of the totals does not fit
    /// in 64 bits.
    pub fn get_monthly_stats(&self, tag: Option<&str>) -> (summary: Result<Vec<(String, i64)>, StatsError>)
        ensures
            summary is Ok <==> monthly_totals_fit(self.log(), tag_filter(tag)),
            summary matches Ok(buckets) ==> is_monthly_summary(self.log(), tag_filter(tag), buckets@),
            summary matches Ok(buckets) ==> months_in_range(
                recent_months(month_keys(self.log(), tag_filter(tag)), MONTH_CAP as nat),
            ),
            summary matches Ok(buckets) ==> labels_descend(buckets@),
            summary matches Err(e) ==> e == StatsError::TotalOverflow,
    {
        let ghost filter = tag_filter(tag);
        let ghost log = self.log();
        let keys = self.collect_month_keys(tag);
        let ghost gkeys = month_keys(log, filter);
        let mut buckets: Vec<(String, i64)> = Vec::new();
        let mut bound: Option<i32> = None;
        let mut picked: usize = 0;
        let mut open = true;
        while open && picked < MONTH_CAP
            invariant
                picked <= MONTH_CAP,
                log == self.log(),
                filter == tag_filter(tag),
                gkeys == month_keys(log, filter),
                lifted(keys@) == gkeys,
                forall|i: int|
                    0 <= i < keys@.len() && (#[trigger] keys@[i]) is Some ==> FIRST_MONTH <= keys@[i]->0
                        <= LAST_MONTH,
                months_in_range(recent_months(gkeys, picked as nat)),
                open ==> recent_months(gkeys, picked as nat).len() == picked,
                !open ==> recent_months(gkeys, picked as nat).len() < picked,
                lift(bound) == if recent_months(gkeys, picked as nat).len() == 0 {
                    None
                } else {
                    Some(recent_months(gkeys, picked as nat).last())
                },
                ({
                    let months = recent_months(gkeys, picked as nat);
                    &&& buckets@.len() == months.len()
                    &&& forall|i: int|
                        0 <= i < months.len() ==> (#[trigger] buckets@[i]).0@ == month_text(months[i])
                            && buckets@[i].1 == month_total(log, filter, months[i])
                }),
            decreases MONTH_CAP - picked, if open { 1int } else { 0int },
        {
            let ghost before = recent_months(gkeys, picked as nat);
            let ghost after = recent_months(gkeys, (picked + 1) as nat);
            match latest_key_before(&keys, bound) {
                Some(month) => {
                    assert(after == before.push(month as int));
                    let total = self.total_in_month(tag, &keys, month);
                    if total < i64::MIN as i128 || total > i64::MAX as i128 {
                        proof {
                            lemma_recent_prefix(gkeys, (picked + 1) as nat, MONTH_CAP as nat);
                            let full = recent_months(gkeys, MONTH_CAP as nat);
                            assert(full[picked as int] == month);
                        }
                        return Err(StatsError::TotalOverflow);
                    }
                    let label = format_month(month);
                    buckets.push((label, total as i64));
                    bound = Some(month);
                },
                None => {
                    assert(after == before);
                    open = false;
                },
            }
            picked = picked + 1;
        }
        proof {
            lemma_recent_prefix(gkeys, picked as nat, MONTH_CAP as nat);
            let months = recent_months(gkeys, MONTH_CAP as nat);
            assert(months == recent_months(gkeys, picked as nat));
            assert forall|i: int| 0 <= i < months.len() implies fits_i64(
                month_total(log, filter, #[trigger] months[i]),
            ) by {
                assert(buckets@[i].1 == month_total(log, filter, months[i]));
            }
            lemma_recent_months(gkeys, MONTH_CAP as nat);
            assert forall|i: int, j: int| 0 <= i < j < buckets@.len() implies text_before(
                (#[trigger] buckets@[j]).0@,
                (#[trigger] buckets@[i]).0@,
            ) by {
                assert(months[i] > months[j]);
                lemma_month_text_ascends(months[j], months[i]);
            }
        }
        Ok(buckets)
    }

    /// Appends a session to the log and gives it the next id: one more than
    /// the number of sessions before it.
    pub fn save_session(
        &mut self,
        start_time: &Timestamp,
        end_time: &Timestamp,
        duration: i64,
        tag: &str,
        session_type: PomodoroMode,
    )
        ensures
            final(self).log().len() == old(self).log().len() + 1,
            final(self).log().drop_last() == old(self).log(),
            final(self).log().last().id == next_id(old(self).log().len()),
            final(self).log().last().start_time == *start_time,
            final(self).log().last().end_time == *end_time,
            final(self).log().last().duration == duration,
            final(self).log().last().tag@ == tag@,
            final(self).log().last().session_type == session_type,
            final(self).tags() == old(self).tags(),
            final(self).settings() == old(self).settings(),
    {
        proof {
            use_type_invariant(&*self);
        }
        let held = self.sessions.len();
        let id: i64 = if (held as u64) < i64::MAX as u64 {
            held as i64 + 1
        } else {
            i64::MAX
        };
        let session = Session {
            id,
            start_time: *start_time,
            end_time: *end_time,
            duration,
            tag: tag.to_owned(),
            session_type,
        };
        let mut sessions: Vec<Session> = Vec::new();
        std::mem::swap(&mut self.sessions, &mut sessions);
        sessions.push(session);
        std::mem::swap(&mut self.sessions, &mut sessions);
        assert(self.sessions@.drop_last() =~= old(self).sessions@);
    }

    /// Takes back the session that was appended last, for a caller that
    /// could not write it to where the log is kept. An empty log stays
    /// empty.
    pub fn take_back_session(&mut self) -> (taken: Option<Session>)
        ensures
            old(self).log().len() == 0 ==> taken is None && final(self).log() == old(self).log(),
            old(self).log().len() > 0 ==> taken == Some(old(self).log().last()) && final(self).log() == old(
                self,
            ).log().drop_last(),
            final(self).tags() == old(self).tags(),
            final(self).settings() == old(self).settings(),
    {
        proof {
            use_type_invariant(&*self);
        }
        let mut sessions: Vec<Session> = Vec::new();
        std::mem::swap(&mut self.sessions, &mut sessions);
        let taken = sessions.pop();
        std::mem::swap(&mut self.sessions, &mut sessions);
        taken
    }

    /// Whether some counted session started on `day`, and the total of those
    /// that did.
    fn scan_day(&self, tag: Option<&str>, day: i32) -> (found: (bool, i128))
        ensures
            found.0 == day_active(self.log(), tag_filter(tag), day as int),
            found.1 == day_total(self.log(), tag_filter(tag), day as int),
            found.0 ==> MIN_DAY <= day <= MAX_DAY,
    {
        let ghost filter = tag_filter(tag);
        let ghost log = self.sessions@;
        let n = self.sessions.len();
        let mut active = false;
        let mut total: i128 = 0;
        let mut i: usize = 0;
        while i < n
            invariant
                i <= n,
                n == log.len(),
                log == self.sessions@,
                filter == tag_filter(tag),
                active == day_active(log.take(i as int), filter, day as int),
                total == day_total(log.take(i as int), filter, day as int),
                active ==> MIN_DAY <= day <= MAX_DAY,
                -(i as int) * 0x8000_0000_0000_0000 <= total <= (i as int) * 0x8000_0000_0000_0000,
            decreases n - i,
        {
            let session = &self.sessions[i];
            let ghost before = log.take(i as int);
            let ghost after = log.take(i + 1);
            proof {
                assert(after.drop_last() =~= before);
                assert(after.last() == log[i as int]);
            }
            let hit = is_counted(session, tag) && session.start_time.day() == day;
            assert(hit == counted_on(log[i as int], filter, day as int));
            proof {
                if day_active(before, filter, day as int) {
                    let k = choose|k: int|
                        0 <= k < before.len() && counted_on(#[trigger] before[k], filter, day as int);
                    assert(after[k] == before[k]);
                }
                if hit {
                    assert(counted_on(after[i as int], filter, day as int));
                }
                if day_active(after, filter, day as int) && !hit {
                    let k = choose|k: int|
                        0 <= k < after.len() && counted_on(#[trigger] after[k], filter, day as int);
                    assert(before[k] == after[k]);
                }
            }
            if hit {
                active = true;
                total = total + session.duration as i128;
            }
            i = i + 1;
        }
        assert(log.take(n as int) =~= log);
        (active, total)
    }
}

/// Whether a list holds a text.
pub fn holds_text(list: &Vec<String>, name: &str) -> (held: bool)
    ensures
        held == texts(list@).contains(name@),
{
    let mut i: usize = 0;
    while i < list.len()
        invariant
            i <= list@.len(),
            forall|j: int| 0 <= j < i ==> texts(list@)[j] != name@,
        decreases list@.len() - i,
    {
        if same_text(list[i].as_str(), name) {
            assert(texts(list@)[i as int] == name@);
            return true;
        }
        i = i + 1;
    }
    false
}

/// The texts of `list` that `other` does not hold, in the order of `list`.
pub fn texts_missing(list: &Vec<String>, other: &Vec<String>) -> (missing: Vec<String>)
    ensures
        texts(missing@) == missing_from(texts(list@), texts(other@)),
{
    let mut missing: Vec<String> = Vec::new();
    let mut i: usize = 0;
    assert(texts(missing@) =~= Seq::<Seq<char>>::empty());
    assert(texts(list@).take(0) =~= Seq::<Seq<char>>::empty());
    while i < list.len()
        invariant
            i <= list@.len(),
            texts(missing@) == missing_from(texts(list@).take(i as int), texts(other@)),
        decreases list@.len() - i,
    {
        let ghost upto = texts(list@).take(i + 1);
        assert(upto.drop_last() =~= texts(list@).take(i as int));
        assert(upto.last() == list@[i as int]@);
        if !holds_text(other, list[i].as_str()) {
            let ghost before = texts(missing@);
            missing.push(list[i].clone());
            assert(texts(missing@) =~= before.push(list@[i as int]@));
        }
        i = i + 1;
    }
    assert(texts(list@).take(list@.len() as int) =~= texts(list@));
    missing
}

/// Whether a summary filtered to `tag` counts a session.
fn is_counted(session: &Session, tag: Option<&str>) -> (is_counted: bool)
    ensures
        is_counted == counted(*session, tag_filter(tag)),
{
    session.session_type == PomodoroMode::Work && match tag {
        Some(t) => same_text(session.tag.as_str(), t),
        None => true,
    }
}

/// The latest month among `keys` that lies before `bound`.
fn latest_key_before(keys: &Vec<Option<i32>>, bound: Option<i32>) -> (latest: Option<i32>)
    ensures
        lift(latest) == latest_before(lifted(keys@), lift(bound)),
        latest is Some ==> keys@.contains(latest),
{
    let ghost gkeys = lifted(keys@);
    let n = keys.len();
    let mut latest: Option<i32> = None;
    let mut i: usize = 0;
    while i < n
        invariant
            i <= n,
            n == keys@.len(),
            gkeys == lifted(keys@),
            lift(latest) == latest_before(gkeys.take(i as int), lift(bound)),
            latest is Some ==> keys@.contains(latest),
        decreases n - i,
    {
        let ghost after = gkeys.take(i + 1);
        proof {
            assert(after.drop_last() =~= gkeys.take(i as int));
            assert(after.last() == lift(keys@[i as int]));
        }
        match keys[i] {
            Some(m) => {
                let is_below = match bound {
                    Some(b) => m < b,
                    None => true,
                };
                let is_later = match latest {
                    Some(r) => r < m,
                    None => true,
                };
                if is_below && is_later {
                    latest = Some(m);
                    assert(keys@[i as int] == latest);
                }
            },
            None => {},
        }
        i = i + 1;
    }
    assert(gkeys.take(n as int) =~= gkeys);
    latest
}

} // verus!
