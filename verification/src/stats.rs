//! What is summarised from the session log: totals by day and by month,
//! and the laws the summaries obey.

use vstd::prelude::*;
use crate::app::PomodoroMode;
use crate::calendar::{
    day_label, month_index, month_text, FIRST_MONTH, LAST_MONTH, MAX_DAY, MIN_DAY,
};
use crate::text::text_before;
use crate::db::Session;

verus! {

/// What went wrong while summarising the log.
#[derive(Debug, Clone, Copy, PartialEq, Eq, Structural)]
pub enum StatsError {
    /// A bucket's total does not fit in 64 bits.
    TotalOverflow,
}

/// Number of days before today that the weekly summary reaches back.
pub const WEEK_SPAN: i32 = 7;

/// Number of days before today that the heatmap reaches back.
pub const HEATMAP_SPAN: i32 = 180;

/// Number of months the monthly summary holds at most.
pub const MONTH_CAP: usize = 12;

/// The filter a summary applies: the tag's characters, or none.
pub open spec fn tag_filter(tag: Option<&str>) -> Option<Seq<char>> {
    match tag {
        Some(t) => Some(t@),
        None => None,
    }
}

/// Whether a session is counted by a summary filtered to `tag`: only work
/// sessions are, and with a filter only those that carry the tag.
pub open spec fn counted(session: Session, tag: Option<Seq<char>>) -> bool {
    session.session_type == PomodoroMode::Work && (tag matches Some(t) ==> session.tag@ == t)
}

/// Whether a session is counted and started on `day`.
pub open spec fn counted_on(session: Session, tag: Option<Seq<char>>, day: int) -> bool {
    counted(session, tag) && session.start_time.day_number() == day
}

/// Sum of the durations of the counted sessions that started on `day`.
pub open spec fn day_total(log: Seq<Session>, tag: Option<Seq<char>>, day: int) -> int
    decreases log.len(),
{
    if log.len() == 0 {
        0
    } else {
        day_total(log.drop_last(), tag, day) + if counted_on(log.last(), tag, day) {
            log.last().duration as int
        } else {
            0
        }
    }
}

/// Whether some counted session started on `day`.
pub open spec fn day_active(log: Seq<Session>, tag: Option<Seq<char>>, day: int) -> bool {
    exists|i: int| 0 <= i < log.len() && counted_on(#[trigger] log[i], tag, day)
}

/// The days from `first` to `last` on which some counted session started,
/// in ascending order.
pub open spec fn active_days(log: Seq<Session>, tag: Option<Seq<char>>, first: int, last: int) -> Seq<int>
    decreases last - first + 1,
{
    if last < first {
        Seq::empty()
    } else if day_active(log, tag, last) {
        active_days(log, tag, first, last - 1).push(last)
    } else {
        active_days(log, tag, first, last - 1)
    }
}

/// Sum over `tags` of the totals that `day` has with each tag as the filter.
pub open spec fn total_over_tags(log: Seq<Session>, tags: Seq<Seq<char>>, day: int) -> int
    decreases tags.len(),
{
    if tags.len() == 0 {
        0
    } else {
        total_over_tags(log, tags.drop_last(), day) + day_total(log, Some(tags.last()), day)
    }
}

/// Whether no tag occurs twice.
pub open spec fn distinct_tags(tags: Seq<Seq<char>>) -> bool {
    forall|i: int, j: int| 0 <= i < j < tags.len() ==> #[trigger] tags[i] != #[trigger] tags[j]
}

/// Whether a total fits in 64 bits.
pub open spec fn fits_i64(total: int) -> bool {
    i64::MIN <= total <= i64::MAX
}

/// Whether every daily total from day `first` to day `last` fits in 64 bits.
pub open spec fn day_totals_fit(log: Seq<Session>, tag: Option<Seq<char>>, first: int, last: int) -> bool {
    forall|d: int| first <= d <= last && day_active(log, tag, d) ==> fits_i64(#[trigger] day_total(log, tag, d))
}

/// Whether `rows` holds the daily totals of `log` from day `first` to day
/// `last`: one row for each day of the range on which a counted session
/// started, in ascending order of day, holding the day and its total.
pub open spec fn is_day_summary(
    log: Seq<Session>,
    tag: Option<Seq<char>>,
    first: int,
    last: int,
    rows: Seq<(i32, i64)>,
) -> bool {
    let days = active_days(log, tag, first, last);
    &&& rows.len() == days.len()
    &&& forall|i: int|
        0 <= i < days.len() ==> (#[trigger] rows[i]).0 == days[i] && rows[i].1 == day_total(log, tag, days[i])
}

/// Whether `buckets` is the weekly summary of `log` as of day `today`: one
/// bucket for each day of the last `WEEK_SPAN` days and today on which a
/// counted session started, in ascending order of day, labelled with the day
/// and holding that day's total.
pub open spec fn is_weekly_summary(
    log: Seq<Session>,
    tag: Option<Seq<char>>,
    today: int,
    buckets: Seq<(String, i64)>,
) -> bool {
    let days = active_days(log, tag, today - WEEK_SPAN, today);
    &&& buckets.len() == days.len()
    &&& forall|i: int|
        0 <= i < days.len() ==> (#[trigger] buckets[i]).0@ == day_label(days[i]) && buckets[i].1
            == day_total(log, tag, days[i])
}

/// What the weekly summary as of day `today` comes to: the summary where
/// every total fits in 64 bits, the overflow error otherwise.
pub open spec fn weekly_outcome(
    log: Seq<Session>,
    tag: Option<Seq<char>>,
    today: int,
    summary: Result<Vec<(String, i64)>, StatsError>,
) -> bool {
    &&& summary is Ok <==> day_totals_fit(log, tag, today - WEEK_SPAN, today)
    &&& summary matches Ok(buckets) ==> is_weekly_summary(log, tag, today, buckets@)
    &&& summary matches Err(e) ==> e == StatsError::TotalOverflow
}

/// What the heatmap data as of day `today` comes to: the daily totals of all
/// work sessions of the last `HEATMAP_SPAN` days and today where every total
/// fits in 64 bits, the overflow error otherwise.
pub open spec fn heatmap_outcome(
    log: Seq<Session>,
    today: int,
    data: Result<Vec<(i32, i64)>, StatsError>,
) -> bool {
    &&& data is Ok <==> day_totals_fit(log, None, today - HEATMAP_SPAN, today)
    &&& data matches Ok(rows) ==> is_day_summary(log, None, today - HEATMAP_SPAN, today, rows@)
    &&& data matches Err(e) ==> e == StatsError::TotalOverflow
}

/// The total of the work sessions that started on day `today`, or 0 where
/// it does not fit in 64 bits.
pub open spec fn total_of_day(log: Seq<Session>, today: int) -> int {
    if fits_i64(day_total(log, None, today)) {
        day_total(log, None, today)
    } else {
        0
    }
}

/// The month number of each session of the log that a summary filtered to
/// `tag` counts, and `None` for each that it does not.
pub open spec fn month_keys(log: Seq<Session>, tag: Option<Seq<char>>) -> Seq<Option<int>> {
    Seq::new(
        log.len(),
        |i: int|
            if counted(log[i], tag) {
                Some(month_index(log[i].start_time.day_number()))
            } else {
                None
            },
    )
}

/// Sum of the durations of the counted sessions that started in `month`.
pub open spec fn month_total(log: Seq<Session>, tag: Option<Seq<char>>, month: int) -> int
    decreases log.len(),
{
    if log.len() == 0 {
        0
    } else {
        month_total(log.drop_last(), tag, month) + if month_keys(log, tag).last() == Some(month) {
            log.last().duration as int
        } else {
            0
        }
    }
}

/// Whether `month` lies before `bound`; no bound admits every month.
pub open spec fn below(month: int, bound: Option<int>) -> bool {
    bound matches Some(b) ==> month < b
}

/// The latest month among `keys` that lies before `bound`, if there is one.
pub open spec fn latest_before(keys: Seq<Option<int>>, bound: Option<int>) -> Option<int>
    decreases keys.len(),
{
    if keys.len() == 0 {
        None
    } else {
        let rest = latest_before(keys.drop_last(), bound);
        match keys.last() {
            Some(m) => if below(m, bound) && (rest matches Some(r) ==> r < m) {
                Some(m)
            } else {
                rest
            },
            None => rest,
        }
    }
}

/// The latest `count` months among `keys`, latest first; all of them where
/// there are fewer.
pub open spec fn recent_months(keys: Seq<Option<int>>, count: nat) -> Seq<int>
    decreases count,
{
    if count == 0 {
        Seq::empty()
    } else {
        let earlier = recent_months(keys, (count - 1) as nat);
        if earlier.len() < count - 1 {
            earlier
        } else {
            let bound = if earlier.len() == 0 {
                None
            } else {
                Some(earlier.last())
            };
            match latest_before(keys, bound) {
                Some(m) => earlier.push(m),
                None => earlier,
            }
        }
    }
}

/// Whether every month lies in the years 1 to 9999.
pub open spec fn months_in_range(months: Seq<int>) -> bool {
    forall|i: int| 0 <= i < months.len() ==> FIRST_MONTH <= #[trigger] months[i] <= LAST_MONTH
}

/// Whether every day lies between 0001-01-01 and 9999-12-31.
pub open spec fn days_in_range(days: Seq<int>) -> bool {
    forall|i: int| 0 <= i < days.len() ==> MIN_DAY <= #[trigger] days[i] <= MAX_DAY
}

/// Whether the labels of the buckets descend: each bucket's label comes,
/// as a text, strictly before the label of every bucket in front of it.
pub open spec fn labels_descend(buckets: Seq<(String, i64)>) -> bool {
    forall|i: int, j: int|
        0 <= i < j < buckets.len() ==> text_before((#[trigger] buckets[j]).0@, (#[trigger] buckets[i]).0@)
}

/// Whether every total of the monthly summary fits in 64 bits.
pub open spec fn monthly_totals_fit(log: Seq<Session>, tag: Option<Seq<char>>) -> bool {
    let months = recent_months(month_keys(log, tag), MONTH_CAP as nat);
    forall|i: int| 0 <= i < months.len() ==> fits_i64(month_total(log, tag, #[trigger] months[i]))
}

/// Whether `buckets` is the monthly summary of `log`: one bucket for each
/// of the latest `MONTH_CAP` months in which a counted session started,
/// latest month first, labelled with the month and holding its total.
pub open spec fn is_monthly_summary(
    log: Seq<Session>,
    tag: Option<Seq<char>>,
    buckets: Seq<(String, i64)>,
) -> bool {
    let months = recent_months(month_keys(log, tag), MONTH_CAP as nat);
    &&& buckets.len() == months.len()
    &&& forall|i: int|
        0 <= i < months.len() ==> (#[trigger] buckets[i]).0@ == month_text(months[i]) && buckets[i].1
            == month_total(log, tag, months[i])
}

/// `active_days` lists exactly the active days of the range, each once and
/// in strictly ascending order.
pub proof fn lemma_active_days(log: Seq<Session>, tag: Option<Seq<char>>, first: int, last: int)
    ensures
        forall|i: int|
            0 <= i < active_days(log, tag, first, last).len() ==> {
                let d = #[trigger] active_days(log, tag, first, last)[i];
                first <= d <= last && day_active(log, tag, d)
            },
        forall|i: int, j: int|
            0 <= i < j < active_days(log, tag, first, last).len() ==> active_days(log, tag, first, last)[i]
                < active_days(log, tag, first, last)[j],
        forall|d: int|
            first <= d <= last && day_active(log, tag, d) ==> active_days(log, tag, first, last).contains(d),
        active_days(log, tag, first, last).len() <= if last < first { 0 } else { last - first + 1 },
    decreases last - first + 1,
{
    if last >= first {
        lemma_active_days(log, tag, first, last - 1);
        let prev = active_days(log, tag, first, last - 1);
        let all = active_days(log, tag, first, last);
        assert forall|d: int| first <= d <= last && day_active(log, tag, d) implies all.contains(d) by {
            if d == last {
                assert(all[all.len() - 1] == last);
            } else {
                assert(prev.contains(d));
                let k = choose|k: int| 0 <= k < prev.len() && prev[k] == d;
                assert(all[k] == d);
            }
        }
    }
}

/// A day on which no counted session started has the total 0.
pub proof fn lemma_inactive_day_total(log: Seq<Session>, tag: Option<Seq<char>>, day: int)
    requires
        !day_active(log, tag, day),
    ensures
        day_total(log, tag, day) == 0,
    decreases log.len(),
{
    if log.len() > 0 {
        let front = log.drop_last();
        assert(!counted_on(log[log.len() - 1], tag, day));
        if day_active(front, tag, day) {
            let k = choose|k: int| 0 <= k < front.len() && counted_on(#[trigger] front[k], tag, day);
            assert(counted_on(log[k], tag, day));
        }
        lemma_inactive_day_total(front, tag, day);
    }
}

/// A work session adds its duration to the total of the day it started on
/// for every filter that admits its tag, and to no other total.
pub proof fn lemma_work_is_counted(log: Seq<Session>, session: Session, tag: Option<Seq<char>>, at: int)
    requires
        session.session_type == PomodoroMode::Work,
    ensures
        day_total(log.push(session), tag, at) == day_total(log, tag, at) + if counted_on(session, tag, at) {
            session.duration as int
        } else {
            0
        },
        counted_on(session, tag, at) ==> day_active(log.push(session), tag, at),
{
    let more = log.push(session);
    assert(more.drop_last() =~= log);
    if counted_on(session, tag, at) {
        assert(counted_on(more[log.len() as int], tag, at));
    }
}

/// One more session changes the sum over the tags by its duration where it
/// is a work session of the day with one of the tags, and not otherwise.
pub proof fn lemma_total_over_tags_step(log: Seq<Session>, session: Session, tags: Seq<Seq<char>>, day: int)
    requires
        distinct_tags(tags),
    ensures
        total_over_tags(log.push(session), tags, day) == total_over_tags(log, tags, day) + if counted_on(
            session,
            None,
            day,
        ) && tags.contains(session.tag@) {
            session.duration as int
        } else {
            0
        },
    decreases tags.len(),
{
    if tags.len() > 0 {
        let front = tags.drop_last();
        let tag = tags.last();
        assert forall|i: int, j: int| 0 <= i < j < front.len() implies #[trigger] front[i] != #[trigger] front[j] by {
            assert(front[i] == tags[i] && front[j] == tags[j]);
        }
        lemma_total_over_tags_step(log, session, front, day);
        assert(log.push(session).drop_last() =~= log);
        if front.contains(session.tag@) {
            let k = choose|k: int| 0 <= k < front.len() && front[k] == session.tag@;
            assert(tags[k] == session.tag@);
            assert(tags[tags.len() - 1] == tag);
            assert(tag != session.tag@);
        }
        if tags.contains(session.tag@) && session.tag@ != tag {
            let k = choose|k: int| 0 <= k < tags.len() && tags[k] == session.tag@;
            assert(front[k] == session.tag@);
        }
        if session.tag@ == tag {
            assert(tags[tags.len() - 1] == session.tag@);
        }
    }
}

/// The total of a day over all tags is the sum of its totals for each tag:
/// with no tag twice in the list and every work session of the day under a
/// tag of the list, the unfiltered total is the sum of the filtered ones.
pub proof fn lemma_all_tags_total_is_the_sum(log: Seq<Session>, tags: Seq<Seq<char>>, day: int)
    requires
        distinct_tags(tags),
        forall|i: int| 0 <= i < log.len() && counted_on(#[trigger] log[i], None, day) ==> tags.contains(log[i].tag@),
    ensures
        day_total(log, None, day) == total_over_tags(log, tags, day),
    decreases log.len(), tags.len(),
{
    if log.len() == 0 {
        if tags.len() > 0 {
            let fewer = tags.drop_last();
            assert forall|i: int, j: int| 0 <= i < j < fewer.len() implies #[trigger] fewer[i]
                != #[trigger] fewer[j] by {
                assert(fewer[i] == tags[i] && fewer[j] == tags[j]);
            }
            lemma_all_tags_total_is_the_sum(log, fewer, day);
        }
    } else {
        let front = log.drop_last();
        assert forall|i: int|
            0 <= i < front.len() && counted_on(#[trigger] front[i], None, day) implies tags.contains(
            front[i].tag@,
        ) by {
            assert(front[i] == log[i]);
        }
        lemma_all_tags_total_is_the_sum(front, tags, day);
        lemma_total_over_tags_step(front, log.last(), tags, day);
        assert(front.push(log.last()) =~= log);
        assert(log[log.len() - 1] == log.last());
    }
}

/// A break session changes no summary: with it in the log every day and
/// every month has the total it had without it, and is active exactly
/// where it was.
pub proof fn lemma_break_is_not_counted(log: Seq<Session>, session: Session, tag: Option<Seq<char>>, at: int)
    requires
        session.session_type == PomodoroMode::Break,
    ensures
        day_total(log.push(session), tag, at) == day_total(log, tag, at),
        day_active(log.push(session), tag, at) == day_active(log, tag, at),
        month_total(log.push(session), tag, at) == month_total(log, tag, at),
        month_keys(log.push(session), tag) == month_keys(log, tag).push(None),
{
    let more = log.push(session);
    assert(more.drop_last() =~= log);
    assert(month_keys(more, tag) =~= month_keys(log, tag).push(None));
    if day_active(more, tag, at) {
        let k = choose|k: int| 0 <= k < more.len() && counted_on(#[trigger] more[k], tag, at);
        assert(counted_on(log[k], tag, at));
    }
    if day_active(log, tag, at) {
        let k = choose|k: int| 0 <= k < log.len() && counted_on(#[trigger] log[k], tag, at);
        assert(counted_on(more[k], tag, at));
    }
}

/// `latest_before` is a month among the keys that lies before the bound, and
/// no key before the bound is later; it is `None` only where no key lies
/// before the bound.
pub proof fn lemma_latest_before(keys: Seq<Option<int>>, bound: Option<int>)
    ensures
        latest_before(keys, bound) matches Some(r) ==> below(r, bound) && keys.contains(Some(r)),
        forall|i: int|
            0 <= i < keys.len() && (#[trigger] keys[i]) is Some && below(keys[i]->0, bound) ==> latest_before(
                keys,
                bound,
            ) is Some && keys[i]->0 <= latest_before(keys, bound)->0,
    decreases keys.len(),
{
    if keys.len() > 0 {
        let front = keys.drop_last();
        lemma_latest_before(front, bound);
        if let Some(r) = latest_before(keys, bound) {
            if latest_before(front, bound) == Some(r) {
                let k = choose|k: int| 0 <= k < front.len() && front[k] == Some(r);
                assert(keys[k] == Some(r));
            } else {
                assert(keys[keys.len() - 1] == Some(r));
            }
        }
        assert forall|i: int|
            0 <= i < keys.len() && (#[trigger] keys[i]) is Some && below(keys[i]->0, bound) implies latest_before(
            keys,
            bound,
        ) is Some && keys[i]->0 <= latest_before(keys, bound)->0 by {
            if i < keys.len() - 1 {
                assert(front[i] == keys[i]);
            }
        }
    }
}

/// The monthly summary is sorted and capped: `recent_months` holds at most
/// `count` months, each of them a key, in strictly descending order, and
/// every key it leaves out is earlier than all `count` months it holds.
pub proof fn lemma_recent_months(keys: Seq<Option<int>>, count: nat)
    ensures
        recent_months(keys, count).len() <= count,
        forall|i: int|
            0 <= i < recent_months(keys, count).len() ==> keys.contains(
                Some(#[trigger] recent_months(keys, count)[i]),
            ),
        forall|i: int, j: int|
            0 <= i < j < recent_months(keys, count).len() ==> recent_months(keys, count)[i] > recent_months(
                keys,
                count,
            )[j],
        forall|k: int|
            0 <= k < keys.len() && (#[trigger] keys[k]) is Some && !recent_months(keys, count).contains(keys[k]->0)
                ==> recent_months(keys, count).len() == count && (count > 0 ==> keys[k]->0 < recent_months(
                keys,
                count,
            ).last()),
    decreases count,
{
    if count > 0 {
        let earlier = recent_months(keys, (count - 1) as nat);
        let all = recent_months(keys, count);
        lemma_recent_months(keys, (count - 1) as nat);
        let bound = if earlier.len() == 0 {
            None
        } else {
            Some(earlier.last())
        };
        lemma_latest_before(keys, bound);
        assert forall|k: int|
            0 <= k < keys.len() && (#[trigger] keys[k]) is Some && !all.contains(keys[k]->0) implies all.len()
            == count && keys[k]->0 < all.last() by {
            let m = keys[k]->0;
            if earlier.len() < count - 1 {
                assert(earlier.contains(m));
            } else {
                if earlier.contains(m) {
                    let w = choose|w: int| 0 <= w < earlier.len() && earlier[w] == m;
                    assert(all[w] == m);
                }
                if earlier.len() > 0 && m > earlier.last() {
                    assert(false);
                }
                if earlier.len() > 0 && m == earlier.last() {
                    assert(earlier[earlier.len() - 1] == m);
                }
                assert(below(m, bound));
                let r = latest_before(keys, bound)->0;
                assert(all == earlier.push(r));
                if m == r {
                    assert(all[all.len() - 1] == m);
                }
            }
        }
    }
}

/// A larger cap keeps the months of a smaller one in front, and adds none
/// where the smaller cap was not reached.
pub proof fn lemma_recent_prefix(keys: Seq<Option<int>>, small: nat, large: nat)
    requires
        small <= large,
    ensures
        recent_months(keys, small).len() <= recent_months(keys, large).len(),
        forall|i: int|
            0 <= i < recent_months(keys, small).len() ==> #[trigger] recent_months(keys, large)[i]
                == recent_months(keys, small)[i],
        recent_months(keys, small).len() < small ==> recent_months(keys, large) == recent_months(keys, small),
    decreases large,
{
    if small < large {
        lemma_recent_prefix(keys, small, (large - 1) as nat);
        lemma_recent_months(keys, (large - 1) as nat);
        lemma_recent_months(keys, small);
    }
}

/// The monthly summary is sorted and capped: it holds at most `MONTH_CAP`
/// buckets, each for a later month than the bucket after it, and where it
/// leaves out a month in which a counted session started it holds all
/// `MONTH_CAP` buckets, every one of them for a later month.
pub proof fn lemma_monthly_summary_sorted_and_capped(
    log: Seq<Session>,
    tag: Option<Seq<char>>,
    buckets: Seq<(String, i64)>,
)
    requires
        is_monthly_summary(log, tag, buckets),
    ensures
        buckets.len() <= MONTH_CAP,
        buckets.len() == recent_months(month_keys(log, tag), MONTH_CAP as nat).len(),
        forall|i: int, j: int|
            0 <= i < j < buckets.len() ==> {
                let months = recent_months(month_keys(log, tag), MONTH_CAP as nat);
                &&& months[i] > months[j]
                &&& (#[trigger] buckets[i]).0@ == month_text(months[i])
                &&& (#[trigger] buckets[j]).0@ == month_text(months[j])
            },
        forall|k: int|
            0 <= k < log.len() && counted(#[trigger] log[k], tag) && !recent_months(
                month_keys(log, tag),
                MONTH_CAP as nat,
            ).contains(month_index(log[k].start_time.day_number())) ==> buckets.len() == MONTH_CAP
                && month_index(log[k].start_time.day_number()) < recent_months(
                month_keys(log, tag),
                MONTH_CAP as nat,
            ).last(),
{
    let keys = month_keys(log, tag);
    lemma_recent_months(keys, MONTH_CAP as nat);
    assert forall|k: int|
        0 <= k < log.len() && counted(#[trigger] log[k], tag) && !recent_months(keys, MONTH_CAP as nat).contains(
            month_index(log[k].start_time.day_number()),
        ) implies buckets.len() == MONTH_CAP && month_index(log[k].start_time.day_number()) < recent_months(
        keys,
        MONTH_CAP as nat,
    ).last() by {
        assert(keys[k] == Some(month_index(log[k].start_time.day_number())));
    }
}

} // verus!
