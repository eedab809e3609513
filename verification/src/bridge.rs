//! Calls into code that Verus does not read: chrono and the parts of std that
//! vstd gives no specification. Each contract here is trusted; it restates what
//! the called function's source or documentation shows.
use chrono::{Datelike, Timelike};
use vstd::prelude::*;
use crate::calendar::{days_in_month, is_valid_ymd, timestamp_in_range, Date, DateTime, MIN_YEAR};
use crate::text::{decimal_text, digit_char};

verus! {

/// `uuid::Uuid`, carried through as an opaque value.
#[verifier::external_type_specification]
#[verifier::external_body]
pub struct ExUuid(uuid::Uuid);

/// `uuid::Uuid::new_v4`: a random identifier; nothing is known of its value.
#[verifier::external_body]
pub(crate) fn new_project_id() -> uuid::Uuid {
    uuid::Uuid::new_v4()
}

/// `String::from_iter` over characters: a string made of exactly these characters, in order.
#[verifier::external_body]
pub(crate) fn string_from_chars(v: &Vec<char>) -> (r: String)
    ensures
        r@ == v@,
{
    v.iter().collect()
}

/// `chrono::NaiveDate::from_ymd_opt`: the date exists exactly when the month is
/// 1 to 12, the day is within that month (February has 29 days in leap years of
/// the proleptic Gregorian calendar), and the year lies within chrono's range.
#[verifier::external_body]
pub(crate) fn date_from_ymd(year: i32, month: u32, day: u32) -> (r: Option<Date>)
    ensures
        r == (if is_valid_ymd(year as int, month as int, day as int) {
            Some(Date { year, month, day })
        } else {
            None
        }),
{
    match chrono::NaiveDate::from_ymd_opt(year, month, day) {
        Some(d) => Some(Date { year: d.year(), month: d.month(), day: d.day() }),
        None => None,
    }
}

/// The day before `d`, when it is still within the supported range.
pub open spec fn previous_day(d: Date) -> Option<Date> {
    if d.day > 1 {
        Some(Date { year: d.year, month: d.month, day: (d.day - 1) as u32 })
    } else if d.month > 1 {
        Some(Date { year: d.year, month: (d.month - 1) as u32, day: days_in_month(d.year as int, d.month - 1) as u32 })
    } else if d.year > MIN_YEAR {
        Some(Date { year: (d.year - 1) as i32, month: 12, day: 31 })
    } else {
        None
    }
}

/// `chrono::NaiveDate::pred_opt`: the previous calendar day, `None` only before
/// the first supported day.
#[verifier::external_body]
pub(crate) fn date_pred(date: Date) -> (r: Option<Date>)
    requires
        date.is_valid(),
    ensures
        r == previous_day(date),
{
    match chrono::NaiveDate::from_ymd_opt(date.year, date.month, date.day).unwrap().pred_opt() {
        Some(d) => Some(Date { year: d.year(), month: d.month(), day: d.day() }),
        None => None,
    }
}

/// `chrono::DateTime::from_timestamp` with no sub-second part: the UTC date-time
/// whose timestamp is `ts`, present exactly when `ts` is in chrono's range.
#[verifier::external_body]
pub(crate) fn datetime_from_timestamp(ts: i64) -> (r: Option<DateTime>)
    ensures
        r is Some <==> timestamp_in_range(ts as int),
        r matches Some(dt) ==> dt.is_valid() && dt.timestamp() == ts,
{
    match chrono::DateTime::from_timestamp(ts, 0) {
        Some(d) => Some(
            DateTime {
                date: Date { year: d.year(), month: d.month(), day: d.day() },
                hour: d.hour(),
                minute: d.minute(),
                second: d.second(),
            },
        ),
        None => None,
    }
}

/// `chrono::DateTime::timestamp` of the date-time read as UTC: the seconds since
/// 1970-01-01 00:00:00.
#[verifier::external_body]
pub(crate) fn datetime_timestamp(dt: DateTime) -> (r: i64)
    requires
        dt.is_valid(),
    ensures
        r == dt.timestamp(),
{
    let d = chrono::NaiveDate::from_ymd_opt(dt.date.year, dt.date.month, dt.date.day).unwrap();
    d.and_hms_opt(dt.hour, dt.minute, dt.second).unwrap().and_utc().timestamp()
}

/// A timestamp can be read as a local date: the local date-time is the UTC one
/// shifted by an offset of less than a day either way, and the timestamp drops
/// the fraction of a second.
pub open spec fn near_local_day(ts: int, d: Date) -> bool {
    d.day_number() * 86400 - 86400 < ts < d.day_number() * 86400 + 2 * 86400
}

/// `chrono::Local::now`: the current timestamp and local date. Both depend on the
/// clock and the time zone, so nothing fixes them; chrono panics when the clock
/// reads a time before 1970, so the date is never before 1969-12-31. The local
/// date is that of the timestamp shifted by the zone's offset, which chrono
/// keeps strictly within one day.
#[verifier::external_body]
pub(crate) fn local_now() -> (r: (i64, Date))
    ensures
        r.0 >= 0,
        r.1.is_valid(),
        r.1.year >= 1969,
        near_local_day(r.0 as int, r.1),
{
    let now = chrono::Local::now();
    let d = now.date_naive();
    (now.timestamp(), Date { year: d.year(), month: d.month(), day: d.day() })
}

/// Two decimal digits, as chrono writes `%d` and `%m`.
pub open spec fn two_digit_text(n: int) -> Seq<char> {
    seq![digit_char(n / 10), digit_char(n % 10)]
}

/// The digits of `n`, with zeros in front up to `width` characters.
pub open spec fn zero_padded_text(n: nat, width: nat) -> Seq<char> {
    let digits = decimal_text(n);
    if digits.len() >= width {
        digits
    } else {
        Seq::new((width - digits.len()) as nat, |i: int| '0') + digits
    }
}

/// How chrono writes `%Y`: four digits for years 0 to 9999, otherwise a sign and
/// at least four digits.
pub open spec fn year_text(y: int) -> Seq<char> {
    if 0 <= y <= 9999 {
        zero_padded_text(y as nat, 4)
    } else if y < 0 {
        seq!['-'] + zero_padded_text((-y) as nat, 4)
    } else {
        seq!['+'] + zero_padded_text(y as nat, 4)
    }
}

/// The pattern `%d<sep>%m<sep>%Y`.
pub open spec fn day_month_year_pattern(sep: char) -> Seq<char> {
    seq!['%', 'd', sep, '%', 'm', sep, '%', 'Y']
}

/// The text of `%d<sep>%m<sep>%Y` for a date.
pub open spec fn day_month_year_text(d: Date, sep: char) -> Seq<char> {
    two_digit_text(d.day as int) + seq![sep] + two_digit_text(d.month as int) + seq![sep]
        + year_text(d.year as int)
}

/// `chrono::NaiveDate::format`, for the two day-month-year patterns that this
/// library uses (other patterns are left out of the contract).
#[verifier::external_body]
pub(crate) fn format_date(date: Date, pattern: &str) -> (r: String)
    requires
        date.is_valid(),
        pattern@ == day_month_year_pattern('/') || pattern@ == day_month_year_pattern('-'),
    ensures
        r@ == day_month_year_text(date, pattern@[2]),
{
    chrono::NaiveDate::from_ymd_opt(date.year, date.month, date.day).unwrap().format(pattern).to_string()
}

/// `chrono::ParseError`, carried through as an opaque value.
#[verifier::external_type_specification]
#[verifier::external_body]
pub struct ExChronoParseError(chrono::ParseError);

/// The date that `chrono::NaiveDate::parse_from_str` reads from a text with a
/// pattern, or `None` when it refuses the text.
pub uninterp spec fn chrono_parsed_date(text: Seq<char>, pattern: Seq<char>) -> Option<Date>;

/// `chrono::NaiveDate::parse_from_str`: the date read from `text` with the
/// strftime-style `pattern`; what it accepts is left to the name above, except
/// that a date it returns is always a valid one.
#[verifier::external_body]
pub(crate) fn parse_date_text(text: &str, pattern: &str) -> (r: Result<Date, chrono::ParseError>)
    ensures
        match r {
            Ok(d) => chrono_parsed_date(text@, pattern@) == Some(d) && d.is_valid(),
            Err(_) => chrono_parsed_date(text@, pattern@) is None,
        },
{
    match chrono::NaiveDate::parse_from_str(text, pattern) {
        Ok(d) => Ok(Date { year: d.year(), month: d.month(), day: d.day() }),
        Err(e) => Err(e),
    }
}

/// What `str::to_lowercase` gives: the Unicode lowercase mapping of each character.
pub uninterp spec fn lowercase_text(s: Seq<char>) -> Seq<char>;

/// `str::to_lowercase`.
#[verifier::external_body]
pub(crate) fn lowercase(s: &str) -> (r: String)
    ensures
        r@ == lowercase_text(s@),
{
    s.to_lowercase()
}

} // verus!
