//! Parsing of dates and intervals, grouping by month, and reply templates.
pub mod last_day_of_month;
pub mod load_env;
pub mod parse_date_str;
pub mod parse_interval;
pub mod parse_slack_id;
pub mod response_templates;
pub mod start_of_month;
pub mod date_to_timestamp;
pub mod group_employees_by_month;
pub mod group_members_by_month;
pub mod types;

use std::collections::BTreeMap;
use vstd::prelude::*;

verus! {

/// Which end of a period a partial date stands for: `Floor` is its first
/// second, `Ceil` its last.
#[derive(Clone, Copy, Debug, PartialEq, Eq, Structural)]
pub enum DateRound {
    Ceil,
    Floor,
}

/// Employee ids grouped under the timestamp of the start of their month.
pub type EmployeesByMonth = BTreeMap<i64, Vec<String>>;

/// Why a command's date text was refused.
#[derive(Debug)]
pub enum ParseDateStrError {
    /// A part of a date (such as the month) is out of range.
    DatePart(String),
    /// A date could not be read.
    Date(String),
    /// More than two dates were given.
    Interval(String),
    /// No date was given.
    NoDate,
}

} // verus!
