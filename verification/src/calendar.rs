//! Calendar days and wall-clock readings.
//!
//! A day is counted in the proleptic Gregorian calendar with 0001-01-01 as
//! day 1, so that consecutive days are consecutive integers and windows of
//! days are integer intervals. What only a calendar can tell (the civil date
//! of a day, its weekday, the text of a reading) comes from `chrono`.

use vstd::prelude::*;
use vstd::string::*;
use crate::text::{
    clamped, digit_char, lemma_four_digits, lemma_text_before_at, lemma_two_digits, push_padded, text_before,
    zero_padded,
};

verus! {

/// Day number of 0001-01-01, the first day a reading may fall on.
pub const MIN_DAY: i32 = 1;

/// Day number of 9999-12-31, the last day a reading may fall on.
pub const MAX_DAY: i32 = 3_652_059;

/// Seconds in one calendar day.
pub const SECONDS_PER_DAY: u32 = 86_400;

/// Number of the first month of year 1.
pub const FIRST_MONTH: i32 = 12;

/// Number of the last month of year 9999.
pub const LAST_MONTH: i32 = 119_999;

/// The civil date `(year, month, day of month)` that `chrono` assigns to a
/// day number, or `None` where the day lies outside the calendar it covers.
pub uninterp spec fn civil_of_day(day: int) -> Option<(int, int, int)>;

/// The reading `(day, second of day)` that `chrono` parses out of a text under
/// the pattern `%Y-%m-%d %H:%M:%S`, or `None` where the text does not match.
pub uninterp spec fn reading_of_text(text: Seq<char>) -> Option<(int, int)>;

/// Weekday of a day, counted from Monday = 0 to Sunday = 6.
pub open spec fn weekday_of_day(day: int) -> int {
    (day - 1) % 7
}

/// Whether `(day, second)` is a reading the library accepts.
pub open spec fn valid_reading(day: int, second: int) -> bool {
    MIN_DAY <= day <= MAX_DAY && 0 <= second < SECONDS_PER_DAY
}

/// The number of the month a day lies in, counting months from year 0:
/// twelve times the year plus the month counted from zero.
pub open spec fn month_index(day: int) -> int {
    match civil_of_day(day) {
        Some((y, m, d)) => y * 12 + m - 1,
        None => 0,
    }
}

/// The label of the month with the given number: `YYYY-MM`.
pub open spec fn month_text(index: int) -> Seq<char> {
    zero_padded((index / 12) as nat, 4) + seq!['-'] + zero_padded((index % 12 + 1) as nat, 2)
}

/// The label of a day between 0001-01-01 and 9999-12-31: `YYYY-MM-DD`. A
/// day outside has the empty label.
pub open spec fn day_label(day: int) -> Seq<char> {
    match civil_of_day(day) {
        Some((y, m, d)) => if MIN_DAY <= day <= MAX_DAY {
            month_text(month_index(day)) + seq!['-'] + zero_padded(d as nat, 2)
        } else {
            Seq::empty()
        },
        None => Seq::empty(),
    }
}

/// The time of day at `second` seconds after midnight: `HH:MM:SS`.
pub open spec fn clock_text(second: int) -> Seq<char> {
    zero_padded((second / 3600) as nat, 2) + seq![':'] + zero_padded((second / 60 % 60) as nat, 2) + seq![':']
        + zero_padded((second % 60) as nat, 2)
}

/// The text of a reading: `YYYY-MM-DD HH:MM:SS`.
pub open spec fn reading_text(day: int, second: int) -> Seq<char> {
    day_label(day) + seq![' '] + clock_text(second)
}

/// The local wall clock, read through `chrono::Local::now`: the day number
/// of the local date and the seconds since local midnight. Nothing is
/// claimed of the values: they are whatever the machine's clock says.
#[verifier::external_body]
pub(crate) fn clock_reading() -> (reading: (i32, u32)) {
    let now = chrono::Local::now().naive_local();
    (
        chrono::Datelike::num_days_from_ce(&now.date()),
        chrono::Timelike::num_seconds_from_midnight(&now.time()),
    )
}

/// `chrono::NaiveDate::from_num_days_from_ce_opt`, read back through
/// `Datelike::year`, `month` and `day`. Claimed: the result is a function of
/// the day alone; every day from 0001-01-01 to 9999-12-31 has a civil date,
/// with a year in 1..=9999; the month lies in 1..=12 and the day of month in
/// 1..=31.
#[verifier::external_body]
pub(crate) fn civil_date(day: i32) -> (civil: Option<(i32, u32, u32)>)
    ensures
        match civil {
            Some((y, m, d)) => {
                &&& civil_of_day(day as int) == Some((y as int, m as int, d as int))
                &&& 1 <= m <= 12
                &&& 1 <= d <= 31
                &&& MIN_DAY <= day <= MAX_DAY ==> 1 <= y <= 9999
            },
            None => civil_of_day(day as int) is None,
        },
        MIN_DAY <= day <= MAX_DAY ==> civil is Some,
{
    chrono::NaiveDate::from_num_days_from_ce_opt(day).map(
        |date| (chrono::Datelike::year(&date), chrono::Datelike::month(&date), chrono::Datelike::day(&date)),
    )
}

/// `chrono::Datelike::weekday` of the date with the given day number, as
/// `Weekday::num_days_from_monday`. Claimed: every day from 0001-01-01 to
/// 9999-12-31 has a weekday, and since day 1 is a Monday it is
/// `(day - 1) mod 7`.
#[verifier::external_body]
pub(crate) fn weekday_from_monday(day: i32) -> (weekday: Option<u8>)
    ensures
        MIN_DAY <= day <= MAX_DAY ==> weekday is Some,
        weekday matches Some(w) ==> w as int == weekday_of_day(day as int),
{
    chrono::NaiveDate::from_num_days_from_ce_opt(day).map(
        |date| chrono::Datelike::weekday(&date).num_days_from_monday() as u8,
    )
}

/// `chrono::NaiveDateTime::format` with `%Y-%m-%d %H:%M:%S`, on the date and
/// time built by `NaiveDate::from_num_days_from_ce_opt` and
/// `NaiveTime::from_num_seconds_from_midnight_opt`. Claimed: every valid
/// reading has a text, and it is the year in four digits, the month, the day
/// of the month, the hour, the minute and the second in two digits each,
/// padded with zeros, set as `YYYY-MM-DD HH:MM:SS`.
#[verifier::external_body]
pub(crate) fn format_reading(day: i32, second: u32) -> (text: Option<String>)
    ensures
        valid_reading(day as int, second as int) ==> text is Some,
        text matches Some(t) ==> valid_reading(day as int, second as int) ==> t@ == reading_text(
            day as int,
            second as int,
        ),
{
    let date = chrono::NaiveDate::from_num_days_from_ce_opt(day)?;
    let time = chrono::NaiveTime::from_num_seconds_from_midnight_opt(second, 0)?;
    Some(chrono::NaiveDateTime::new(date, time).format("%Y-%m-%d %H:%M:%S").to_string())
}

/// `chrono::NaiveDateTime::parse_from_str` with `%Y-%m-%d %H:%M:%S`, read
/// back as day number and seconds since midnight. Claimed: the result is a
/// function of the text alone.
#[verifier::external_body]
pub(crate) fn parse_reading(text: &str) -> (reading: Option<(i32, u32)>)
    ensures
        match reading {
            Some((day, second)) => reading_of_text(text@) == Some((day as int, second as int)),
            None => reading_of_text(text@) is None,
        },
{
    chrono::NaiveDateTime::parse_from_str(text, "%Y-%m-%d %H:%M:%S").ok().map(
        |at| (
            chrono::Datelike::num_days_from_ce(&at.date()),
            chrono::Timelike::num_seconds_from_midnight(&at.time()),
        ),
    )
}

/// The number of the month a day lies in; that of the first month of year 1
/// for a day outside 0001-01-01 to 9999-12-31.
pub fn month_of(day: i32) -> (index: i32)
    ensures
        index == if MIN_DAY <= day <= MAX_DAY {
            month_index(day as int)
        } else {
            FIRST_MONTH as int
        },
        FIRST_MONTH <= index <= LAST_MONTH,
{
    if day < MIN_DAY || day > MAX_DAY {
        return FIRST_MONTH;
    }
    match civil_date(day) {
        Some((y, m, d)) => y * 12 + (m as i32) - 1,
        None => FIRST_MONTH,
    }
}

/// Writes the label of a month; the empty label for a month outside the
/// years 1 to 9999.
pub fn format_month(index: i32) -> (label: String)
    ensures
        label@ == if FIRST_MONTH <= index <= LAST_MONTH {
            month_text(index as int)
        } else {
            Seq::empty()
        },
{
    let mut label = String::new();
    if index < FIRST_MONTH || index > LAST_MONTH {
        return label;
    }
    push_padded(&mut label, (index / 12) as u64, 4);
    proof {
        reveal_strlit("-");
    }
    label.append("-");
    push_padded(&mut label, (index % 12 + 1) as u64, 2);
    assert(label@ =~= month_text(index as int));
    label
}

/// Writes the label of a day.
pub fn format_day(day: i32) -> (label: String)
    ensures
        label@ == day_label(day as int),
{
    if day < MIN_DAY || day > MAX_DAY {
        let label = String::new();
        assert(label@ =~= day_label(day as int));
        return label;
    }
    let mut label = format_month(month_of(day));
    match civil_date(day) {
        Some((y, m, d)) => {
            proof {
                reveal_strlit("-");
            }
            label.append("-");
            push_padded(&mut label, d as u64, 2);
            assert(label@ =~= day_label(day as int));
        },
        None => {},
    }
    label
}

/// A wall-clock reading: a calendar day and a second within it.
///
/// Every value lies between 0001-01-01 00:00:00 and 9999-12-31 23:59:59, so
/// each has a civil date and a text.
#[derive(Clone, Copy, Debug, PartialEq, Eq, Structural)]
pub struct Timestamp {
    day: i32,
    second: u32,
}

impl Timestamp {
    #[verifier::type_invariant]
    closed spec fn in_range(self) -> bool {
        valid_reading(self.day as int, self.second as int)
    }

    /// The day number of the reading.
    pub closed spec fn day_number(self) -> int {
        self.day as int
    }

    /// The seconds since midnight of the reading.
    pub closed spec fn second_of_day(self) -> int {
        self.second as int
    }

    /// Whether the reading lies in the range every exec value lies in.
    pub open spec fn valid(self) -> bool {
        valid_reading(self.day_number(), self.second_of_day())
    }

    /// Seconds since the midnight that starts day 0: the order of readings.
    pub open spec fn instant(self) -> int {
        self.day_number() * SECONDS_PER_DAY + self.second_of_day()
    }

    /// A reading is its day and its second: two readings that agree on both
    /// are the same reading.
    pub proof fn lemma_same_parts(self, other: Timestamp)
        requires
            self.day_number() == other.day_number(),
            self.second_of_day() == other.second_of_day(),
        ensures
            self == other,
    {
    }

    /// The reading at `second` of `day`, if that is a valid reading.
    pub fn new(day: i32, second: u32) -> (made: Option<Timestamp>)
        ensures
            made is Some <==> valid_reading(day as int, second as int),
            made matches Some(t) ==> t.day_number() == day && t.second_of_day() == second && t.valid(),
    {
        if MIN_DAY <= day && day <= MAX_DAY && second < SECONDS_PER_DAY {
            Some(Timestamp { day, second })
        } else {
            None
        }
    }

    /// The valid reading nearest to `second` of `day`: each part is moved to
    /// the nearest bound of its range.
    pub fn clamped(day: i32, second: u32) -> (made: Timestamp)
        ensures
            made.valid(),
            made.day_number() == clamped(day as int, MIN_DAY as int, MAX_DAY as int),
            made.second_of_day() == clamped(second as int, 0, SECONDS_PER_DAY - 1),
    {
        let d: i32 = if day < MIN_DAY {
            MIN_DAY
        } else if day > MAX_DAY {
            MAX_DAY
        } else {
            day
        };
        let s: u32 = if second >= SECONDS_PER_DAY {
            SECONDS_PER_DAY - 1
        } else {
            second
        };
        Timestamp { day: d, second: s }
    }

    /// The local wall clock, brought into range.
    pub fn now() -> (made: Timestamp)
        ensures
            made.valid(),
    {
        let (day, second) = clock_reading();
        Timestamp::clamped(day, second)
    }

    /// The day number.
    pub fn day(&self) -> (day: i32)
        ensures
            day == self.day_number(),
            MIN_DAY <= day <= MAX_DAY,
    {
        proof {
            use_type_invariant(self);
        }
        self.day
    }

    /// The seconds since midnight.
    pub fn second(&self) -> (second: u32)
        ensures
            second == self.second_of_day(),
            second < SECONDS_PER_DAY,
    {
        proof {
            use_type_invariant(self);
        }
        self.second
    }

    /// Whether `self` is strictly earlier than `other`.
    pub fn is_before(&self, other: &Timestamp) -> (earlier: bool)
        ensures
            earlier == (self.instant() < other.instant()),
    {
        proof {
            use_type_invariant(self);
            use_type_invariant(other);
        }
        self.day < other.day || (self.day == other.day && self.second < other.second)
    }

    /// The reading written as `YYYY-MM-DD HH:MM:SS`.
    pub fn to_text(&self) -> (text: String)
        ensures
            text@ == reading_text(self.day_number(), self.second_of_day()),
    {
        proof {
            use_type_invariant(self);
        }
        match format_reading(self.day, self.second) {
            Some(text) => text,
            None => String::new(),
        }
    }

    /// Reads a text written as `YYYY-MM-DD HH:MM:SS`. `None` where the text
    /// does not parse or names a reading outside the valid range.
    pub fn parse(text: &str) -> (made: Option<Timestamp>)
        ensures
            made == Timestamp::reading_in_range(reading_of_text(text@)),
    {
        match parse_reading(text) {
            Some((day, second)) => {
                let made = Timestamp::new(day, second);
                proof {
                    if let Some(t) = made {
                        let want = Timestamp::reading_in_range(reading_of_text(text@))->0;
                        t.lemma_same_parts(want);
                    }
                }
                made
            },
            None => None,
        }
    }

    /// What a parsed reading becomes: the timestamp with those parts where
    /// they form a valid reading, nothing otherwise.
    pub closed spec fn reading_in_range(reading: Option<(int, int)>) -> Option<Timestamp> {
        match reading {
            Some((day, second)) => if valid_reading(day, second) {
                Some(Timestamp { day: day as i32, second: second as u32 })
            } else {
                None
            },
            None => None,
        }
    }

    /// `reading_in_range` keeps the parts of a valid reading and drops every
    /// other one.
    pub proof fn lemma_reading_in_range(reading: Option<(int, int)>)
        ensures
            Timestamp::reading_in_range(reading) is Some <==> (reading matches Some((d, s))
                && valid_reading(d, s)),
            Timestamp::reading_in_range(reading) matches Some(t) ==> reading == Some(
                (t.day_number(), t.second_of_day()),
            ) && t.valid(),
    {
    }
}

/// The digit of a number below ten thousand at a place, counting from the
/// thousands as place 0.
pub open spec fn digit_at(x: int, place: int) -> int {
    if place == 0 {
        x / 1000
    } else if place == 1 {
        x / 100 % 10
    } else if place == 2 {
        x / 10 % 10
    } else {
        x % 10
    }
}

/// The place at which the digits of two numbers below ten thousand first
/// differ, counting from the thousands as place 0; 4 where none differs.
pub open spec fn first_difference(x: int, y: int) -> int {
    if x / 1000 != y / 1000 {
        0
    } else if x / 100 % 10 != y / 100 % 10 {
        1
    } else if x / 10 % 10 != y / 10 % 10 {
        2
    } else if x % 10 != y % 10 {
        3
    } else {
        4
    }
}

/// A number below ten thousand is the sum of its four digits, each times
/// the weight of its place.
pub proof fn lemma_digits_of(x: int)
    requires
        0 <= x < 10000,
    ensures
        x == 1000 * digit_at(x, 0) + 100 * digit_at(x, 1) + 10 * digit_at(x, 2) + digit_at(x, 3),
        forall|place: int| 0 <= place < 4 ==> 0 <= #[trigger] digit_at(x, place) <= 9,
{
    let h = x / 100;
    assert(x == 100 * h + x % 100);
    assert(h == 10 * (h / 10) + h % 10);
    assert(h / 10 == x / 1000);
    let t = x / 10;
    assert(t % 10 == (x % 100) / 10);
    assert(x % 100 == 10 * ((x % 100) / 10) + x % 10);
}

/// Of two rows of four digits the one that writes the smaller number has
/// the smaller digit at the first place where the rows differ.
proof fn lemma_digits_in_order(a: int, b: int, c: int, d: int, e: int, f: int, g: int, h: int)
    requires
        0 <= a <= 9 && 0 <= b <= 9 && 0 <= c <= 9 && 0 <= d <= 9,
        0 <= e <= 9 && 0 <= f <= 9 && 0 <= g <= 9 && 0 <= h <= 9,
        1000 * a + 100 * b + 10 * c + d < 1000 * e + 100 * f + 10 * g + h,
    ensures
        a < e || (a == e && (b < f || (b == f && (c < g || (c == g && d < h))))),
{
}

/// Of two numbers below ten thousand the smaller has the smaller digit at
/// the first place where their digits differ.
pub proof fn lemma_first_difference(x: int, y: int)
    requires
        0 <= x < y < 10000,
    ensures
        0 <= first_difference(x, y) < 4,
        0 <= digit_at(x, first_difference(x, y)) < digit_at(y, first_difference(x, y)) <= 9,
{
    lemma_digits_of(x);
    lemma_digits_of(y);
    assert(0 <= digit_at(x, 0) <= 9 && 0 <= digit_at(x, 1) <= 9 && 0 <= digit_at(x, 2) <= 9 && 0 <= digit_at(
        x,
        3,
    ) <= 9);
    assert(0 <= digit_at(y, 0) <= 9 && 0 <= digit_at(y, 1) <= 9 && 0 <= digit_at(y, 2) <= 9 && 0 <= digit_at(
        y,
        3,
    ) <= 9);
    lemma_digits_in_order(
        digit_at(x, 0),
        digit_at(x, 1),
        digit_at(x, 2),
        digit_at(x, 3),
        digit_at(y, 0),
        digit_at(y, 1),
        digit_at(y, 2),
        digit_at(y, 3),
    );
}

/// A smaller digit has the smaller character.
pub proof fn lemma_digit_char_ascends(d: int, e: int)
    requires
        0 <= d < e <= 9,
    ensures
        digit_char(d) < digit_char(e),
{
}

/// The label of a month of the years 1 to 9999 is seven characters: the
/// four digits of the year, a hyphen and the two digits of the month.
pub proof fn lemma_month_text_digits(index: int)
    requires
        FIRST_MONTH <= index <= LAST_MONTH,
    ensures
        month_text(index) == seq![
            digit_char(index / 12 / 1000),
            digit_char(index / 12 / 100 % 10),
            digit_char(index / 12 / 10 % 10),
            digit_char(index / 12 % 10),
            '-',
            digit_char((index % 12 + 1) / 10),
            digit_char((index % 12 + 1) % 10),
        ],
{
    lemma_four_digits((index / 12) as nat);
    lemma_two_digits((index % 12 + 1) as nat);
    assert(month_text(index) =~= seq![
        digit_char(index / 12 / 1000),
        digit_char(index / 12 / 100 % 10),
        digit_char(index / 12 / 10 % 10),
        digit_char(index / 12 % 10),
        '-',
        digit_char((index % 12 + 1) / 10),
        digit_char((index % 12 + 1) % 10),
    ]);
}

/// The labels of the months of the years 1 to 9999 are in the order of the
/// months: an earlier month has the label that comes first as a text.
pub proof fn lemma_month_text_ascends(earlier: int, later: int)
    requires
        FIRST_MONTH <= earlier < later <= LAST_MONTH,
    ensures
        text_before(month_text(earlier), month_text(later)),
{
    lemma_month_text_digits(earlier);
    lemma_month_text_digits(later);
    let a = month_text(earlier);
    let b = month_text(later);
    let x = earlier / 12;
    let y = later / 12;
    if x < y {
        lemma_first_difference(x, y);
        let at = first_difference(x, y);
        lemma_digit_char_ascends(digit_at(x, at), digit_at(y, at));
        assert(a[at] == digit_char(digit_at(x, at)));
        assert(b[at] == digit_char(digit_at(y, at)));
        lemma_text_before_at(a, b, at);
    } else {
        let m = earlier % 12 + 1;
        let n = later % 12 + 1;
        assert(x == y && m < n);
        if m / 10 < n / 10 {
            lemma_digit_char_ascends(m / 10, n / 10);
            lemma_text_before_at(a, b, 5);
        } else {
            lemma_digit_char_ascends(m % 10, n % 10);
            lemma_text_before_at(a, b, 6);
        }
    }
}

} // verus!
