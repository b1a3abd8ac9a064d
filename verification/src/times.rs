//! Time stamps, in milliseconds since 1970, as text.

use vstd::prelude::*;

use crate::roster::opt_text;
use crate::text::{decimal, decimal_of, digit};

verus! {

/// The last second that the calendar of the `chrono` crate knows: the end of the
/// year 262142.
pub const LAST_SECOND: i64 = 8_210_266_876_799;

// ── The calendar ─────────────────────────────────────────────────────────────

/// A date of the Gregorian calendar.
pub struct Date {
    pub year: int,
    pub month: int,
    pub day: int,
}

/// Whether a year has a 29th of February.
pub open spec fn is_leap(year: int) -> bool {
    year % 4 == 0 && (year % 100 != 0 || year % 400 == 0)
}

/// The number of days in a month.
pub open spec fn month_len(year: int, month: int) -> int {
    if month == 2 {
        if is_leap(year) {
            29
        } else {
            28
        }
    } else if month == 4 || month == 6 || month == 9 || month == 11 {
        30
    } else {
        31
    }
}

/// The number of leap years up to a year.
pub open spec fn leaps(year: int) -> int {
    year / 4 - year / 100 + year / 400
}

/// The number of days from the beginning of 1970 to that of a year.
pub open spec fn days_before_year(year: int) -> int {
    365 * (year - 1970) + leaps(year - 1) - leaps(1969)
}

/// The number of days from the beginning of a year to that of a month.
pub open spec fn days_before_month(year: int, month: int) -> int
    decreases month,
{
    if month <= 1 {
        0
    } else {
        days_before_month(year, month - 1) + month_len(year, month - 1)
    }
}

impl Date {
    /// Whether the date is in the calendar.
    pub open spec fn is_valid(self) -> bool {
        1 <= self.month <= 12 && 1 <= self.day <= month_len(self.year, self.month)
    }

    /// The number of days from the first of January 1970 to the date.
    pub open spec fn day_number(self) -> int {
        days_before_year(self.year) + days_before_month(self.year, self.month) + self.day - 1
    }
}

/// The date that lies a number of days after the first of January 1970.
pub open spec fn date_on(days: int) -> Date {
    choose|d: Date| d.is_valid() && #[trigger] d.day_number() == days
}

proof fn lemma_month_within_year(year: int, month: int)
    requires
        1 <= month <= 12,
    ensures
        0 <= days_before_month(year, month),
        days_before_month(year, month) + month_len(year, month) <= days_before_year(year + 1)
            - days_before_year(year),
        forall|m: int|
            1 <= m < month ==> #[trigger] days_before_month(year, m) + month_len(year, m)
                <= days_before_month(year, month),
{
    reveal_with_fuel(days_before_month, 13);
}

proof fn lemma_years_grow(a: int, b: int)
    requires
        a <= b,
    ensures
        days_before_year(a) <= days_before_year(b),
    decreases b - a,
{
    if a < b {
        lemma_years_grow(a, b - 1);
        lemma_month_within_year(b - 1, 1);
    }
}

proof fn lemma_earlier_year(a: Date, b: Date)
    requires
        a.is_valid(),
        b.is_valid(),
        a.year < b.year,
    ensures
        a.day_number() < b.day_number(),
{
    lemma_month_within_year(a.year, a.month);
    lemma_month_within_year(b.year, b.month);
    lemma_years_grow(a.year + 1, b.year);
}

/// A day has one date: a date of the calendar is the date of its own day.
pub proof fn law_day_has_one_date(d: Date)
    requires
        d.is_valid(),
    ensures
        date_on(d.day_number()) == d,
{
    let e = date_on(d.day_number());
    if d.year < e.year {
        lemma_earlier_year(d, e);
    } else if e.year < d.year {
        lemma_earlier_year(e, d);
    } else {
        lemma_month_within_year(d.year, d.month);
        lemma_month_within_year(e.year, e.month);
        if d.month < e.month {
            assert(days_before_month(d.year, d.month) + month_len(d.year, d.month)
                <= days_before_month(e.year, e.month));
        } else if e.month < d.month {
            assert(days_before_month(e.year, e.month) + month_len(e.year, e.month)
                <= days_before_month(d.year, d.month));
        }
    }
}

/// Every day since the last of 1969 has a date.
pub proof fn law_every_day_has_a_date(days: int)
    requires
        days >= -1,
    ensures
        date_on(days).is_valid(),
        date_on(days).day_number() == days,
    decreases days + 1,
{
    reveal_with_fuel(days_before_month, 13);
    let next = if days == -1 {
        Date { year: 1969, month: 12, day: 31 }
    } else {
        law_every_day_has_a_date(days - 1);
        let d = date_on(days - 1);
        if d.day < month_len(d.year, d.month) {
            Date { day: d.day + 1, ..d }
        } else if d.month < 12 {
            Date { month: d.month + 1, day: 1, ..d }
        } else {
            Date { year: d.year + 1, month: 1, day: 1 }
        }
    };
    assert(next.is_valid() && next.day_number() == days);
}

// ── Dates and times as text ──────────────────────────────────────────────────

/// A number below a hundred in two digits.
pub open spec fn two_digits(n: int) -> Seq<char> {
    seq![digit((n / 10) as nat), digit((n % 10) as nat)]
}

/// A date as year, month and day; a year of more than four digits has a sign.
pub open spec fn date_text(d: Date) -> Seq<char> {
    let year = decimal_of(d.year as nat);
    (if d.year > 9999 {
        "+"@ + year
    } else {
        year
    }) + "-"@ + two_digits(d.month) + "-"@ + two_digits(d.day)
}

/// The time of day, a number of seconds after midnight, as hour and minute.
pub open spec fn clock_text(seconds: int) -> Seq<char> {
    two_digits(seconds / 3600) + ":"@ + two_digits(seconds / 60 % 60)
}

/// The time of day that a clock shows which is a number of seconds ahead of UTC.
pub open spec fn short_text(secs: int, offset: int) -> Seq<char> {
    clock_text((secs + offset) % 86_400)
}

/// The date and time of day by a clock that is a number of seconds ahead of UTC.
pub open spec fn long_text(secs: int, offset: int) -> Seq<char> {
    date_text(date_on((secs + offset) / 86_400)) + " "@ + short_text(secs, offset)
}

/// The two ways in which a time is shown.
pub enum TimePattern {
    /// The time of day.
    Short,
    /// The date and the time of day.
    Long,
}

impl TimePattern {
    /// The second by a clock that is a number of seconds ahead of UTC.
    pub open spec fn text_at(self, secs: int, offset: int) -> Seq<char> {
        match self {
            TimePattern::Short => short_text(secs, offset),
            TimePattern::Long => long_text(secs, offset),
        }
    }
}

/// `chrono::DateTime::from_timestamp`, `with_timezone` with `chrono::Local`,
/// `offset` and `FixedOffset::local_minus_utc`: how many seconds the clocks in the
/// time zone of the machine are ahead of UTC at the given second. There is a
/// result for every second that the calendar knows, provided that the time zone
/// data of the machine are sound, and it is less than a day. Which one it is
/// depends on the machine and is left unsaid.
#[verifier::external_body]
fn local_offset(secs: i64) -> (r: Option<i32>)
    requires
        secs >= 0,
    ensures
        r is Some <==> secs <= LAST_SECOND,
        r matches Some(offset) ==> -86_400 < offset < 86_400,
{
    chrono::DateTime::from_timestamp(secs, 0).map(
        |t| t.with_timezone(&chrono::Local).offset().local_minus_utc(),
    )
}

/// `chrono::DateTime::from_timestamp`, `FixedOffset::east_opt`, `with_timezone`
/// and `format`: the given second by a clock that is a number of seconds ahead of
/// UTC, by one of the patterns `%H:%M` and `%Y-%m-%d %H:%M`. Hours, minutes,
/// months and days have two digits, years at least four, and a sign if they have
/// more; the dates are those of the Gregorian calendar.
#[verifier::external_body]
fn time_at_offset(secs: i64, offset: i32, pattern: &str) -> (r: String)
    requires
        0 <= secs <= LAST_SECOND,
        -86_400 < offset < 86_400,
        pattern@ == "%H:%M"@ || pattern@ == "%Y-%m-%d %H:%M"@,
    ensures
        pattern@ == "%H:%M"@ ==> r@ == short_text(secs as int, offset as int),
        pattern@ == "%Y-%m-%d %H:%M"@ ==> r@ == long_text(secs as int, offset as int),
{
    let zone = chrono::FixedOffset::east_opt(offset).unwrap();
    let at = chrono::DateTime::from_timestamp(secs, 0).unwrap();
    at.with_timezone(&zone).format(pattern).to_string()
}

/// The second that a time stamp lies in.
fn second_of(ts_ms: u64) -> (r: i64)
    ensures
        r == ts_ms / 1000,
{
    (ts_ms / 1000) as i64
}

/// The label of a time stamp, given how far the clocks are ahead of UTC then;
/// empty if that is not known.
pub open spec fn label_of_time(ts_ms: u64, offset: Option<i32>, pattern: TimePattern) -> Seq<char> {
    match offset {
        Some(o) => pattern.text_at((ts_ms / 1000) as int, o as int),
        None => Seq::empty(),
    }
}

/// The label of a time stamp, given how far the clocks are ahead of UTC then;
/// empty if that is not known.
pub fn label_at(ts_ms: u64, offset: Option<i32>, pattern: TimePattern) -> (r: String)
    requires
        offset matches Some(o) ==> -86_400 < o < 86_400 && ts_ms / 1000 <= LAST_SECOND,
    ensures
        r@ == label_of_time(ts_ms, offset, pattern),
{
    match offset {
        Some(o) => match pattern {
            TimePattern::Short => time_at_offset(second_of(ts_ms), o, "%H:%M"),
            TimePattern::Long => time_at_offset(second_of(ts_ms), o, "%Y-%m-%d %H:%M"),
        },
        None => String::new(),
    }
}

/// Whether a text is a time stamp by a clock less than a day from UTC; beyond the
/// calendar, whether it is empty.
pub open spec fn is_label(ts_ms: u64, pattern: TimePattern, s: Seq<char>) -> bool {
    if ts_ms / 1000 <= LAST_SECOND {
        exists|o: int|
            -86_400 < o < 86_400 && s == #[trigger] pattern.text_at((ts_ms / 1000) as int, o)
    } else {
        s == Seq::<char>::empty()
    }
}

/// Whether a text can stand for the time of day of a time stamp: it is that by a
/// clock less than a day from UTC.
pub open spec fn is_short_label(ts_ms: u64, s: Seq<char>) -> bool {
    is_label(ts_ms, TimePattern::Short, s)
}

/// Whether a text can stand for the date and time of a time stamp: it is that by
/// a clock less than a day from UTC.
pub open spec fn is_long_label(ts_ms: u64, s: Seq<char>) -> bool {
    is_label(ts_ms, TimePattern::Long, s)
}

fn local_label(ts_ms: u64, pattern: TimePattern) -> (r: String)
    ensures
        is_label(ts_ms, pattern, r@),
{
    let offset = local_offset(second_of(ts_ms));
    let r = label_at(ts_ms, offset, pattern);
    proof {
        if let Some(o) = offset {
            assert(r@ == pattern.text_at((ts_ms / 1000) as int, o as int));
        }
    }
    r
}

/// The time of day of a time stamp in the time zone of the machine; empty if the
/// calendar does not reach that far. How far the machine's clock is from UTC, less
/// than a day, is left unsaid.
pub fn fmt_ts_short(ts_ms: u64) -> (r: String)
    ensures
        is_short_label(ts_ms, r@),
{
    local_label(ts_ms, TimePattern::Short)
}

/// The date and time of a time stamp in the time zone of the machine; empty if
/// the calendar does not reach that far. How far the machine's clock is from UTC,
/// less than a day, is left unsaid.
pub fn fmt_ts_long(ts_ms: u64) -> (r: String)
    ensures
        is_long_label(ts_ms, r@),
{
    local_label(ts_ms, TimePattern::Long)
}

/// A second since 1970 as date and time by RFC 3339, in UTC, with `Z` for the
/// zone; `None` beyond the calendar.
pub open spec fn utc_text(secs: int) -> Option<Seq<char>> {
    if secs <= LAST_SECOND {
        Some(
            date_text(date_on(secs / 86_400)) + "T"@ + short_text(secs, 0) + ":"@ + two_digits(
                secs % 60,
            ) + "Z"@,
        )
    } else {
        None
    }
}

/// `chrono::DateTime::from_timestamp` and `to_rfc3339_opts`: the given second by
/// RFC 3339, in UTC, without fractions. There is a result for every second that
/// the calendar knows.
#[verifier::external_body]
fn utc_time(secs: i64) -> (r: Option<String>)
    requires
        secs >= 0,
    ensures
        opt_text(r) == utc_text(secs as int),
{
    chrono::DateTime::from_timestamp(secs, 0).map(
        |t| t.to_rfc3339_opts(chrono::SecondsFormat::Secs, true),
    )
}

/// A time stamp by RFC 3339, in UTC; the bare number if the calendar does not
/// reach that far.
pub open spec fn utc_label(ts_ms: u64, at: Option<Seq<char>>) -> Seq<char> {
    match at {
        Some(s) => s,
        None => decimal_of(ts_ms as nat),
    }
}

/// A time stamp, given its second by RFC 3339 if the calendar reaches that far.
pub fn utc_or_number(ts_ms: u64, at: Option<String>) -> (r: String)
    ensures
        r@ == utc_label(ts_ms, opt_text(at)),
{
    match at {
        Some(s) => s,
        None => decimal(ts_ms),
    }
}

/// A time stamp by RFC 3339, in UTC; the bare number if the calendar does not
/// reach that far.
pub fn fmt_ts_utc(ts_ms: u64) -> (r: String)
    ensures
        r@ == utc_label(ts_ms, utc_text((ts_ms / 1000) as int)),
{
    utc_or_number(ts_ms, utc_time(second_of(ts_ms)))
}

// ── Laws ─────────────────────────────────────────────────────────────────────

/// A clock shows the hour and the minute that the second lies in, each with two digits.
pub proof fn law_clock_shows_hour_and_minute(secs: int, offset: int, hour: int, minute: int)
    requires
        0 <= hour < 24,
        0 <= minute < 60,
        hour * 3600 + minute * 60 <= (secs + offset) % 86_400 < hour * 3600 + minute * 60 + 60,
    ensures
        short_text(secs, offset) == seq![
            (48 + hour / 10) as char,
            (48 + hour % 10) as char,
            ':',
            (48 + minute / 10) as char,
            (48 + minute % 10) as char,
        ],
{
    reveal_strlit(":");
    let t = (secs + offset) % 86_400;
    assert(t / 3600 == hour);
    assert(t / 60 % 60 == minute);
}

/// A date is shown as year, month and day, with a sign before a year of more than four
/// digits; a date and time as the date of the day that the second lies in, and the clock.
pub proof fn law_date_and_clock_are_shown(secs: int, offset: int, d: Date)
    requires
        d.is_valid(),
        d.day_number() == (secs + offset) / 86_400,
    ensures
        long_text(secs, offset) == date_text(d) + " "@ + short_text(secs, offset),
        0 <= d.year <= 9999 ==> date_text(d) == decimal_of(d.year as nat) + "-"@ + seq![
            (48 + d.month / 10) as char,
            (48 + d.month % 10) as char,
        ] + "-"@ + seq![(48 + d.day / 10) as char, (48 + d.day % 10) as char],
        d.year > 9999 ==> date_text(d) == "+"@ + decimal_of(d.year as nat) + "-"@ + seq![
            (48 + d.month / 10) as char,
            (48 + d.month % 10) as char,
        ] + "-"@ + seq![(48 + d.day / 10) as char, (48 + d.day % 10) as char],
{
    law_day_has_one_date(d);
}

/// The label of a time stamp is the second that it lies in by a clock less than a day from
/// UTC; beyond the calendar it is empty.
pub proof fn law_labels_are_of_the_second(ts_ms: u64, s: Seq<char>)
    ensures
        is_short_label(ts_ms, s) && ts_ms / 1000 <= LAST_SECOND ==> exists|o: int|
            -86_400 < o < 86_400 && s == #[trigger] short_text((ts_ms / 1000) as int, o),
        is_long_label(ts_ms, s) && ts_ms / 1000 <= LAST_SECOND ==> exists|o: int|
            -86_400 < o < 86_400 && s == #[trigger] long_text((ts_ms / 1000) as int, o),
        is_short_label(ts_ms, s) && ts_ms / 1000 > LAST_SECOND ==> s.len() == 0,
        is_long_label(ts_ms, s) && ts_ms / 1000 > LAST_SECOND ==> s.len() == 0,
{
    let secs = (ts_ms / 1000) as int;
    if is_short_label(ts_ms, s) && secs <= LAST_SECOND {
        let o = choose|o: int|
            -86_400 < o < 86_400 && s == #[trigger] TimePattern::Short.text_at(secs, o);
        assert(s == short_text(secs, o));
    }
    if is_long_label(ts_ms, s) && secs <= LAST_SECOND {
        let o = choose|o: int|
            -86_400 < o < 86_400 && s == #[trigger] TimePattern::Long.text_at(secs, o);
        assert(s == long_text(secs, o));
    }
}

/// A time in UTC is the date, the clock and the second, as RFC 3339 has it; beyond the
/// calendar the time stamp itself is shown.
pub proof fn law_utc_times_are_shown(ts_ms: u64, d: Date)
    requires
        d.is_valid(),
        d.day_number() == (ts_ms / 1000) as int / 86_400,
    ensures
        ({
            let secs = (ts_ms / 1000) as int;
            let label = utc_label(ts_ms, utc_text(secs));
            &&& secs <= LAST_SECOND ==> label == date_text(d) + "T"@ + short_text(secs, 0) + ":"@
                + seq![(48 + secs % 60 / 10) as char, (48 + secs % 10) as char] + "Z"@
            &&& secs > LAST_SECOND ==> label == decimal_of(ts_ms as nat)
        }),
{
    let secs = (ts_ms / 1000) as int;
    law_day_has_one_date(d);
    assert(secs % 60 % 10 == secs % 10);
}

} // verus!
