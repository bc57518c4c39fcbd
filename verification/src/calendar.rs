//! The proleptic Gregorian calendar: days, instants and time bounds. The
//! dates come from `chrono`, and so does the clock.

use vstd::prelude::*;
use crate::log_entry::{EntryView, LogEntry, LogError};

verus! {

/// The first year of the calendar.
pub const MIN_YEAR: i32 = -262_143;

/// The last year of the calendar.
pub const MAX_YEAR: i32 = 262_142;

/// Whether `year` has a 29th of February: every fourth year has, but for
/// the hundreds that four does not divide.
pub open spec fn is_leap_year(year: int) -> bool {
    year % 4 == 0 && (year % 100 != 0 || year % 400 == 0)
}

/// The number of days of a month.
pub open spec fn days_in_month(year: int, month: int) -> int {
    if month == 2 {
        if is_leap_year(year) {
            29
        } else {
            28
        }
    } else if month == 4 || month == 6 || month == 9 || month == 11 {
        30
    } else {
        31
    }
}

/// The number of days of a year that lie before a month.
pub open spec fn days_before_month(year: int, month: int) -> int
    decreases month,
{
    if month <= 1 {
        0
    } else {
        days_before_month(year, month - 1) + days_in_month(year, month - 1)
    }
}

/// The number of days that lie between the end of the year 0 and the
/// beginning of `year`; negative for the years up to 0.
pub open spec fn days_before_year(year: int) -> int {
    let y = year - 1;
    365 * y + y / 4 - y / 100 + y / 400
}

/// Whether the calendar has the day `year`-`month`-`day`.
pub open spec fn is_date(year: int, month: int, day: int) -> bool {
    &&& MIN_YEAR <= year <= MAX_YEAR
    &&& 1 <= month <= 12
    &&& 1 <= day <= days_in_month(year, month)
}

/// The number of the day `year`-`month`-`day` in the proleptic Gregorian
/// calendar, counted so that 0001-01-01 is day 1; `None` where the
/// calendar has no such day.
pub open spec fn civil_day_number(year: i32, month: u32, day: u32) -> Option<i32> {
    if is_date(year as int, month as int, day as int) {
        Some(
            (days_before_year(year as int) + days_before_month(year as int, month as int)
                + day) as i32,
        )
    } else {
        None
    }
}

/// Year, month, day, hour, minute and second that `text` writes under the
/// `strftime` format `format`; `None` where `text` does not fit.
pub uninterp spec fn datetime_written(text: Seq<char>, format: Seq<char>) -> Option<
    (i32, u32, u32, u32, u32, u32),
>;

/// Year, month and day that `text` writes under the `strftime` format
/// `format`; `None` where `text` does not fit.
pub uninterp spec fn date_written(text: Seq<char>, format: Seq<char>) -> Option<(i32, u32, u32)>;

/// `chrono::Local::now`, read for its year. Nothing is claimed of it.
#[verifier::external_body]
pub(crate) fn current_year() -> i32 {
    chrono::Datelike::year(&chrono::Local::now())
}

/// `chrono::NaiveDate::from_ymd_opt`, the date read for its day number
/// (`num_days_from_ce`). The contract claims what the documentation of the
/// two says: there is a date where the calendar has the day, within the
/// years of `chrono`; and its number counts the days of the proleptic
/// Gregorian calendar from 0001-01-01 as day 1.
#[verifier::external_body]
pub(crate) fn day_number(year: i32, month: u32, day: u32) -> (n: Option<i32>)
    ensures
        n == civil_day_number(year, month, day),
{
    chrono::NaiveDate::from_ymd_opt(year, month, day).map(|d| chrono::Datelike::num_days_from_ce(&d))
}

/// `chrono::DateTime::from_timestamp` at whole seconds, the instant read
/// for its six fields in universal time. The contract claims what the
/// documentation promises, that the result leads back to the instant: the
/// fields are a date and a time of day whose instant is `seconds`, and
/// there are none where the calendar has no such date.
#[verifier::external_body]
pub(crate) fn fields_of(seconds: i64) -> (f: Option<(i32, u32, u32, u32, u32, u32)>)
    ensures
        f == civil_fields(seconds),
{
    let t = chrono::DateTime::from_timestamp(seconds, 0)?.naive_utc();
    let (d, c) = (t.date(), t.time());
    Some((
        chrono::Datelike::year(&d),
        chrono::Datelike::month(&d),
        chrono::Datelike::day(&d),
        chrono::Timelike::hour(&c),
        chrono::Timelike::minute(&c),
        chrono::Timelike::second(&c),
    ))
}

/// `chrono::NaiveDateTime::parse_from_str`, the result read for its six
/// fields, a failure as `None`. The contract names the result and claims
/// no more.
#[verifier::external_body]
pub(crate) fn read_datetime(text: &str, format: &str) -> (f: Option<(i32, u32, u32, u32, u32, u32)>)
    ensures
        f == datetime_written(text@, format@),
{
    let t = chrono::NaiveDateTime::parse_from_str(text, format).ok()?;
    let (d, c) = (t.date(), t.time());
    Some((
        chrono::Datelike::year(&d),
        chrono::Datelike::month(&d),
        chrono::Datelike::day(&d),
        chrono::Timelike::hour(&c),
        chrono::Timelike::minute(&c),
        chrono::Timelike::second(&c),
    ))
}

/// `chrono::NaiveDate::parse_from_str`, the result read for its year, month
/// and day, a failure as `None`. The contract names the result and claims
/// no more.
#[verifier::external_body]
pub(crate) fn read_date(text: &str, format: &str) -> (f: Option<(i32, u32, u32)>)
    ensures
        f == date_written(text@, format@),
{
    let d = chrono::NaiveDate::parse_from_str(text, format).ok()?;
    Some((chrono::Datelike::year(&d), chrono::Datelike::month(&d), chrono::Datelike::day(&d)))
}

/// The day number of 1970-01-01, from which instants are counted.
pub const EPOCH_DAY: i32 = 719_163;

/// The day number of 1900-01-01, where a record without a valid date is put.
pub const FALLBACK_DAY: i32 = 693_596;

/// A bound written with date, hour, minute and second.
pub const BOUND_TO_SECOND: &'static str = "%Y-%m-%d %H:%M:%S";

/// A bound written with date, hour and minute.
pub const BOUND_TO_MINUTE: &'static str = "%Y-%m-%d %H:%M";

/// A bound written as a date alone.
pub const BOUND_TO_DAY: &'static str = "%Y-%m-%d";

/// Year, month, day, hour, minute and second.
pub type Fields = (i32, u32, u32, u32, u32, u32);

/// An instant on the time line, without a time zone: whole seconds after
/// 1970-01-01 00:00:00.
#[derive(Debug, Clone, Copy, PartialEq, Eq, Structural)]
pub struct Timestamp {
    pub seconds: i64,
}

/// The instant of an optional timestamp.
pub open spec fn stamp_seconds(t: Option<Timestamp>) -> Option<int> {
    match t {
        Some(x) => Some(x.seconds as int),
        None => None,
    }
}

/// Whether `hour`:`minute`:`second` is a time of day.
pub open spec fn valid_clock(hour: u32, minute: u32, second: u32) -> bool {
    hour < 24 && minute < 60 && second < 60
}

/// The instant at `hour`:`minute`:`second` of the day numbered `day`.
pub open spec fn seconds_at(day: i32, hour: u32, minute: u32, second: u32) -> int {
    (day - EPOCH_DAY) * 86_400 + hour * 3_600 + minute * 60 + second
}

/// The instant of a civil date and time; `None` where the date or the time
/// of day does not exist.
pub open spec fn civil_instant(
    year: i32,
    month: u32,
    day: u32,
    hour: u32,
    minute: u32,
    second: u32,
) -> Option<int> {
    match civil_day_number(year, month, day) {
        Some(n) if valid_clock(hour, minute, second) => Some(seconds_at(n, hour, minute, second)),
        _ => None,
    }
}

/// The instant of six fields.
pub open spec fn instant_of(f: Fields) -> Option<int> {
    civil_instant(f.0, f.1, f.2, f.3, f.4, f.5)
}

/// Year, month, day, hour, minute and second of the instant `seconds` after
/// 1970-01-01 00:00:00: the fields whose instant it is; `None` where the
/// calendar has no date for it.
#[verifier::opaque]
pub open spec fn civil_fields(seconds: i64) -> Option<Fields> {
    if exists|f: Fields| instant_of(f) == Some(seconds as int) {
        Some(choose|f: Fields| instant_of(f) == Some(seconds as int))
    } else {
        None
    }
}

/// The instant that a record is put at: its date, or 1900-01-01 where that
/// is no date; at its time of day, or at midnight where that is no time.
pub open spec fn entry_seconds(e: EntryView) -> int {
    let day = match civil_day_number(e.year, e.month, e.day) {
        Some(n) => n,
        None => FALLBACK_DAY,
    };
    if valid_clock(e.hour, e.minute, e.second) {
        seconds_at(day, e.hour, e.minute, e.second)
    } else {
        seconds_at(day, 0, 0, 0)
    }
}

/// The instant that a bound writes: the first of the three accepted forms
/// that fits decides, and the instant is that of the fields it writes; a
/// date alone means its midnight.
pub open spec fn bound_written(text: Seq<char>) -> Option<int> {
    if datetime_written(text, BOUND_TO_SECOND@) is Some {
        instant_of(datetime_written(text, BOUND_TO_SECOND@)->0)
    } else if date_written(text, BOUND_TO_DAY@) is Some {
        let d = date_written(text, BOUND_TO_DAY@)->0;
        civil_instant(d.0, d.1, d.2, 0, 0, 0)
    } else if datetime_written(text, BOUND_TO_MINUTE@) is Some {
        instant_of(datetime_written(text, BOUND_TO_MINUTE@)->0)
    } else {
        None
    }
}

/// The days that lie before each month of a year.
pub proof fn lemma_days_before_month(year: int, month: int)
    requires
        1 <= month <= 12,
    ensures
        days_before_month(year, month) == (if month == 1 {
            0int
        } else if month == 2 {
            31
        } else if month == 3 {
            59
        } else if month == 4 {
            90
        } else if month == 5 {
            120
        } else if month == 6 {
            151
        } else if month == 7 {
            181
        } else if month == 8 {
            212
        } else if month == 9 {
            243
        } else if month == 10 {
            273
        } else if month == 11 {
            304
        } else {
            334
        }) + (if month > 2 && is_leap_year(year) {
            1int
        } else {
            0
        }),
    decreases month,
{
    if month > 1 {
        lemma_days_before_month(year, month - 1);
    }
}

/// A year has 365 days, and one more where it is a leap year.
pub proof fn lemma_year_length(year: int)
    ensures
        days_before_year(year + 1) - days_before_year(year) == if is_leap_year(year) {
            366int
        } else {
            365
        },
{
}

/// The years between two years have 365 days each at least.
pub proof fn lemma_years_between(a: int, b: int)
    requires
        a <= b,
    ensures
        days_before_year(b) - days_before_year(a) >= 365 * (b - a),
    decreases b - a,
{
    if a < b {
        lemma_years_between(a, b - 1);
        lemma_year_length(b - 1);
    }
}

/// Whether the first of two dates stands earlier in the calendar.
pub open spec fn date_before(a: (i32, u32, u32), b: (i32, u32, u32)) -> bool {
    a.0 < b.0 || (a.0 == b.0 && (a.1 < b.1 || (a.1 == b.1 && a.2 < b.2)))
}

/// Whether the first of two dates with times stands earlier.
pub open spec fn fields_before(a: Fields, b: Fields) -> bool {
    ||| date_before((a.0, a.1, a.2), (b.0, b.1, b.2))
    ||| (a.0, a.1, a.2) == (b.0, b.1, b.2) && (a.3 < b.3 || (a.3 == b.3 && (a.4 < b.4 || (a.4
        == b.4 && a.5 < b.5))))
}

/// The number of a day within its year lies within the year.
pub proof fn lemma_day_of_year(year: int, month: int, day: int)
    requires
        is_date(year, month, day),
    ensures
        1 <= days_before_month(year, month) + day <= days_before_year(year + 1) - days_before_year(
            year,
        ),
{
    lemma_days_before_month(year, month);
    lemma_year_length(year);
}

/// A later date has a later day number.
pub proof fn lemma_later_date_later_day(a: (i32, u32, u32), b: (i32, u32, u32))
    requires
        civil_day_number(a.0, a.1, a.2) is Some,
        civil_day_number(b.0, b.1, b.2) is Some,
        date_before(a, b),
    ensures
        civil_day_number(a.0, a.1, a.2)->0 < civil_day_number(b.0, b.1, b.2)->0,
{
    lemma_day_number_fits(a.0, a.1, a.2);
    lemma_day_number_fits(b.0, b.1, b.2);
    lemma_days_before_month(a.0 as int, a.1 as int);
    lemma_days_before_month(b.0 as int, b.1 as int);
    if a.0 < b.0 {
        lemma_day_of_year(a.0 as int, a.1 as int, a.2 as int);
        lemma_years_between(a.0 + 1, b.0 as int);
    }
}

/// The number of a day lies within what an `i32` holds.
pub proof fn lemma_day_number_fits(year: i32, month: u32, day: u32)
    requires
        is_date(year as int, month as int, day as int),
    ensures
        -96_000_000 < days_before_year(year as int) + days_before_month(year as int, month as int)
            + day < 96_000_000,
{
    lemma_days_before_month(year as int, month as int);
}

/// Of two dates with times, the later has the later instant.
pub proof fn lemma_later_fields_later_instant(a: Fields, b: Fields)
    requires
        instant_of(a) is Some,
        instant_of(b) is Some,
        fields_before(a, b),
    ensures
        instant_of(a)->0 < instant_of(b)->0,
{
    if date_before((a.0, a.1, a.2), (b.0, b.1, b.2)) {
        lemma_later_date_later_day((a.0, a.1, a.2), (b.0, b.1, b.2));
    }
}

/// Two dates with times that have one instant are the same.
pub proof fn lemma_one_instant(f: Fields, g: Fields)
    requires
        instant_of(f) is Some,
        instant_of(f) == instant_of(g),
    ensures
        f == g,
{
    if fields_before(f, g) {
        lemma_later_fields_later_instant(f, g);
    } else if fields_before(g, f) {
        lemma_later_fields_later_instant(g, f);
    }
}

/// The fields of an instant lead back to it.
pub proof fn lemma_fields_lead_back(seconds: i64)
    ensures
        civil_fields(seconds) matches Some(f) ==> instant_of(f) == Some(seconds as int),
        civil_fields(seconds) is None ==> forall|f: Fields|
            #[trigger] instant_of(f) != Some(seconds as int),
{
    reveal(civil_fields);
}

/// The fields of the instant of a date and a time are that date and time.
pub proof fn lemma_fields_of_instant(f: Fields, seconds: i64)
    requires
        instant_of(f) == Some(seconds as int),
    ensures
        civil_fields(seconds) == Some(f),
{
    lemma_fields_lead_back(seconds);
    lemma_one_instant(f, civil_fields(seconds)->0);
}

/// Instants are counted from 1970-01-01, and the day where a record
/// without a date is put is 1900-01-01.
pub proof fn lemma_known_days()
    ensures
        civil_day_number(1970, 1, 1) == Some(EPOCH_DAY),
        civil_day_number(1900, 1, 1) == Some(FALLBACK_DAY),
        civil_instant(1970, 1, 1, 0, 0, 0) == Some(0int),
{
    lemma_days_before_month(1970, 1);
    lemma_days_before_month(1900, 1);
}

/// A record with a date and a time of day is put at their instant: at the
/// instant that a bound of the same fields writes.
pub proof fn lemma_entry_instant(e: EntryView)
    requires
        civil_instant(e.year, e.month, e.day, e.hour, e.minute, e.second) is Some,
    ensures
        Some(entry_seconds(e)) == civil_instant(
            e.year,
            e.month,
            e.day,
            e.hour,
            e.minute,
            e.second,
        ),
{
}

fn at_day(day: i32, hour: u32, minute: u32, second: u32) -> (t: Timestamp)
    requires
        valid_clock(hour, minute, second),
    ensures
        t.seconds == seconds_at(day, hour, minute, second),
{
    let d: i64 = day as i64 - EPOCH_DAY as i64;
    Timestamp { seconds: d * 86_400 + (hour as i64) * 3_600 + (minute as i64) * 60 + second as i64 }
}

impl Timestamp {
    /// The instant of a civil date and time; `None` where the date or the
    /// time of day does not exist.
    pub fn from_civil(year: i32, month: u32, day: u32, hour: u32, minute: u32, second: u32) -> (t:
        Option<Timestamp>)
        ensures
            stamp_seconds(t) == civil_instant(year, month, day, hour, minute, second),
    {
        match day_number(year, month, day) {
            Some(n) => if hour < 24 && minute < 60 && second < 60 {
                Some(at_day(n, hour, minute, second))
            } else {
                None
            },
            None => None,
        }
    }

    /// The instant that a record is put at.
    pub fn of_entry(e: &LogEntry) -> (t: Timestamp)
        ensures
            t.seconds == entry_seconds(e@),
    {
        let day = match day_number(e.year, e.month, e.day) {
            Some(n) => n,
            None => FALLBACK_DAY,
        };
        if e.hour < 24 && e.minute < 60 && e.second < 60 {
            at_day(day, e.hour, e.minute, e.second)
        } else {
            at_day(day, 0, 0, 0)
        }
    }

    /// Year, month, day, hour, minute and second of the instant, where the
    /// calendar reaches it: fields whose instant it is.
    pub fn fields(&self) -> (f: Option<Fields>)
        ensures
            f == civil_fields(self.seconds),
    {
        fields_of(self.seconds)
    }
}

/// Reads a time bound written as `YYYY-MM-DD HH:MM:SS`, `YYYY-MM-DD` or
/// `YYYY-MM-DD HH:MM`.
pub fn parse_datetime(text: &str) -> (r: Result<Timestamp, LogError>)
    ensures
        match r {
            Ok(t) => bound_written(text@) == Some(t.seconds as int),
            Err(e) => e == LogError::InvalidBound && bound_written(text@) is None,
        },
{
    let stamp = if let Some(f) = read_datetime(text, BOUND_TO_SECOND) {
        Timestamp::from_civil(f.0, f.1, f.2, f.3, f.4, f.5)
    } else if let Some(d) = read_date(text, BOUND_TO_DAY) {
        Timestamp::from_civil(d.0, d.1, d.2, 0, 0, 0)
    } else if let Some(f) = read_datetime(text, BOUND_TO_MINUTE) {
        Timestamp::from_civil(f.0, f.1, f.2, f.3, f.4, f.5)
    } else {
        None
    };
    match stamp {
        Some(t) => Ok(t),
        None => Err(LogError::InvalidBound),
    }
}

} // verus!
