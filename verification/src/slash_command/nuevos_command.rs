//! The `/nuevos` command: the employees who joined within an interval.
use vstd::prelude::*;
use crate::bridge::{datetime_timestamp, lowercase_text};
use crate::calendar::{lemma_valid_timestamp_in_range, Date, DateTime};
use crate::models::Employee;
use crate::slash_command::{interval_error_reply, interval_error_text, lemma_grouped_months_in_range};
use crate::utils::group_employees_by_month::{group_employees_by_month, join_dates_valid, join_records};
use crate::utils::group_members_by_month::grouped_by_month;
use crate::utils::last_day_of_month::can_be_today;
use crate::utils::parse_interval::{
    checked_parse_interval, interval_names_last_december, interval_panics, interval_result,
};
use crate::utils::response_templates::{group_views, new_members_template, new_members_text};
use crate::utils::ParseDateStrError;

verus! {

/// The form of the command that lists new employees.
#[derive(Debug)]
pub struct ListNewsEmployeesCommand {
    pub token: String,
    pub api_app_id: String,
    pub command: String,
    pub text: String,
    pub response_url: String,
}

/// What the command does with its text.
pub enum NuevosStep {
    /// Look up the employees who joined in this interval.
    Lookup { from: DateTime, to: DateTime },
    /// Answer at once with this text.
    Reply(String),
    /// The text names a month or a year that cannot be read as a date.
    Unreadable,
}

/// Reads the command's text: an interval to look up, or the reply explaining
/// why the dates could not be read.
pub fn nuevos_command_step(command_text: &str) -> (r: NuevosStep)
    ensures
        (r is Unreadable) == interval_panics(lowercase_text(command_text@)),
        r is Lookup ==> exists|today: Date|
            can_be_today(today) && #[trigger] interval_result(
                command_text@,
                lowercase_text(command_text@),
                today,
                Ok((r->from, r->to)),
            ),
        r is Reply ==> exists|today: Date, err: ParseDateStrError|
            can_be_today(today) && #[trigger] interval_result(
                command_text@,
                lowercase_text(command_text@),
                today,
                Err(err),
            ) && r->Reply_0@ == interval_error_text(err, command_text@),
        r is Lookup && !interval_names_last_december(lowercase_text(command_text@)) ==> forall|today: Date|
            #[trigger] interval_result(command_text@, lowercase_text(command_text@), today, Ok((r->from, r->to))),
{
    let parsed = checked_parse_interval(command_text);
    let ghost lowered = lowercase_text(command_text@);
    match parsed {
        None => NuevosStep::Unreadable,
        Some(Ok((from, to))) => {
            let ghost t = choose|t: Date| can_be_today(t) && interval_result(command_text@, lowered, t, parsed->0);
            let r = NuevosStep::Lookup { from, to };
            assert(can_be_today(t) && interval_result(command_text@, lowered, t, Ok((r->from, r->to))));
            r
        },
        Some(Err(e)) => {
            let ghost err = e;
            let ghost t = choose|t: Date| can_be_today(t) && interval_result(command_text@, lowered, t, parsed->0);
            let msg = interval_error_reply(e, command_text);
            assert(can_be_today(t) && interval_result(command_text@, lowered, t, Err(err)) && msg@
                == interval_error_text(err, command_text@));
            NuevosStep::Reply(msg)
        },
    }
}

/// The reply listing the employees found for the interval from `from` to `to`.
pub fn nuevos_command_reply(from: DateTime, to: DateTime, employees: Vec<Employee>) -> (r: String)
    requires
        from.is_valid(),
        to.is_valid(),
        join_dates_valid(employees@),
    ensures
        r@ == new_members_text(from.timestamp(), to.timestamp(), grouped_by_month(join_records(employees@))),
{
    let from_ts = datetime_timestamp(from);
    let to_ts = datetime_timestamp(to);
    let ghost records = join_records(employees@);
    proof {
        assert forall|i: int| 0 <= i < records.len() implies crate::calendar::timestamp_in_range(
            #[trigger] records[i].0 as int,
        ) by {
            lemma_valid_timestamp_in_range(employees@[i].join_date);
        }
        lemma_grouped_months_in_range(records);
    }
    let grouped = group_employees_by_month(employees);
    assert(group_views(grouped@).dom() =~= grouped@.dom());
    new_members_template(from_ts, to_ts, grouped)
}

} // verus!
