//! The timestamp of a date written `DD/MM/YYYY`.
use vstd::prelude::*;
use crate::bridge::{chrono_parsed_date, datetime_timestamp, parse_date_text};
use crate::calendar::{Date, DateTime};

verus! {

/// The timestamp of 00:00:00 UTC on a date.
pub fn midnight_timestamp(date: Date) -> (r: i64)
    requires
        date.is_valid(),
    ensures
        r == (DateTime { date, hour: 0, minute: 0, second: 0 }).timestamp(),
{
    datetime_timestamp(DateTime { date, hour: 0, minute: 0, second: 0 })
}

/// The timestamp of 00:00:00 UTC on the date written in `date_str` as
/// `%d/%m/%Y` (read by chrono), or chrono's error when the text is not such a date.
pub fn date_to_timestamp(date_str: &str) -> (r: Result<i64, chrono::ParseError>)
    ensures
        match chrono_parsed_date(date_str@, "%d/%m/%Y"@) {
            Some(d) => r matches Ok(ts) && ts == (DateTime { date: d, hour: 0, minute: 0, second: 0 }).timestamp(),
            None => r is Err,
        },
{
    match parse_date_text(date_str, "%d/%m/%Y") {
        Ok(date) => Ok(midnight_timestamp(date)),
        Err(e) => Err(e),
    }
}

} // verus!
