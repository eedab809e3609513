//! The slash commands of the bot.
pub mod nuevo_proyecto_command;
pub mod nuevos_command;
pub mod types;

use vstd::prelude::*;
use crate::bridge::{datetime_timestamp, lowercase_text};
use crate::calendar::{in_timestamp_range, timestamp_in_range, Date, DateTime};
use crate::utils::last_day_of_month::can_be_today;
use crate::utils::parse_interval::{
    checked_parse_interval, interval_names_last_december, interval_panics, interval_result,
};
use crate::utils::group_members_by_month::{
    group_members_by_month, grouped_by_month, join_month, joins_in_range, lemma_grouped_by_month,
};
use crate::utils::response_templates::{group_views, months_in_range, new_members_template, new_members_text};
use crate::utils::start_of_month::lemma_start_of_month_bounds;
use crate::utils::ParseDateStrError;

verus! {

/// The commands the bot knows.
#[derive(Debug)]
pub enum SlackCommand {
    ListNewPeople,
}

/// The form of the command that lists new employees.
#[derive(Debug)]
pub struct ListNewsEmployeesCommand {
    pub token: String,
    pub api_app_id: String,
    pub command: String,
    pub text: String,
    pub response_url: String,
}

/// The reply to a command whose dates could not be read.
pub open spec fn interval_error_text(err: ParseDateStrError, command_text: Seq<char>) -> Seq<char> {
    match err {
        ParseDateStrError::Date(invalid) => "Fecha invalida: "@ + invalid@
            + ". Escribí /ayuda para ver opciones de formato."@,
        ParseDateStrError::DatePart(invalid) => "El fragmento de fecha: "@ + invalid@ + " de "@
            + command_text + " es inválido. Escribí /ayuda para ver opciones de formato."@,
        ParseDateStrError::Interval(invalid) => "El intervalo "@ + invalid@ + " es"@,
        ParseDateStrError::NoDate => "No se recibió fecha. Escribí /ayuda para ver opciones de formato."@,
    }
}

/// The reply to a command whose dates could not be read.
pub fn interval_error_reply(err: ParseDateStrError, command_text: &str) -> (r: String)
    ensures
        r@ == interval_error_text(err, command_text@),
{
    let mut s = String::new();
    match err {
        ParseDateStrError::Date(invalid) => {
            s.append("Fecha invalida: ");
            s.append(invalid.as_str());
            s.append(". Escribí /ayuda para ver opciones de formato.");
        },
        ParseDateStrError::DatePart(invalid) => {
            s.append("El fragmento de fecha: ");
            s.append(invalid.as_str());
            s.append(" de ");
            s.append(command_text);
            s.append(" es inválido. Escribí /ayuda para ver opciones de formato.");
        },
        ParseDateStrError::Interval(invalid) => {
            s.append("El intervalo ");
            s.append(invalid.as_str());
            s.append(" es");
        },
        ParseDateStrError::NoDate => {
            s.append("No se recibió fecha. Escribí /ayuda para ver opciones de formato.");
        },
    }
    assert(s@ =~= interval_error_text(err, command_text@));
    s
}

/// A grouping of members who joined at timestamps in range has its months in range.
pub proof fn lemma_grouped_months_in_range(members: Seq<(i64, String)>)
    requires
        joins_in_range(members),
    ensures
        months_in_range(grouped_by_month(members).dom()),
{
    lemma_grouped_by_month(members);
    assert forall|k: i64| #[trigger] grouped_by_month(members).dom().contains(k) implies timestamp_in_range(k as int) by {
        assert(grouped_by_month(members).contains_key(k));
        let i = choose|i: int| 0 <= i < members.len() && join_month(members[i]) == k;
        assert(timestamp_in_range(members[i].0 as int));
        lemma_start_of_month_bounds(members[i].0 as int);
    }
}

/// The reply listing members who joined between two timestamps, given the
/// `(join timestamp, id)` pairs found for that range.
pub fn slash_command_reply(from_ts: i64, to_ts: i64, members: Vec<(i64, String)>) -> (r: String)
    requires
        joins_in_range(members@),
    ensures
        r@ == new_members_text(from_ts as int, to_ts as int, grouped_by_month(members@)),
{
    let ghost ms = members@;
    let grouped = group_members_by_month(members);
    proof {
        lemma_grouped_months_in_range(ms);
        assert(group_views(grouped@).dom() =~= grouped@.dom());
    }
    new_members_template(from_ts, to_ts, grouped)
}

/// The interval read from a command's text, on `today`, runs from `from_ts` to
/// `to_ts` (UTC timestamps).
pub open spec fn interval_timestamps(text: Seq<char>, today: Date, from_ts: i64, to_ts: i64) -> bool {
    exists|from: DateTime, to: DateTime|
        #[trigger] interval_result(text, lowercase_text(text), today, Ok((from, to))) && from_ts
            == from.timestamp() && to_ts == to.timestamp()
}

/// Whether every join timestamp found is in the supported range, as
/// `slash_command_reply` needs.
pub fn joins_all_in_range(members: &Vec<(i64, String)>) -> (r: bool)
    ensures
        r == joins_in_range(members@),
{
    let mut i: usize = 0;
    while i < members.len()
        invariant
            i <= members@.len(),
            forall|k: int| 0 <= k < i ==> timestamp_in_range(#[trigger] members@[k].0 as int),
        decreases members@.len() - i,
    {
        if !in_timestamp_range(members[i].0) {
            return false;
        }
        i += 1;
    }
    true
}

/// The reply to the listing command once the store was asked: the listing of
/// the members found, or "Error desconocido" when the store failed.
pub fn slash_command_lookup_reply(from_ts: i64, to_ts: i64, found: Result<Vec<(i64, String)>, String>) -> (r: String)
    requires
        found matches Ok(members) ==> joins_in_range(members@),
    ensures
        match found {
            Ok(members) => r@ == new_members_text(from_ts as int, to_ts as int, grouped_by_month(members@)),
            Err(_) => r@ == "Error desconocido"@,
        },
{
    match found {
        Ok(members) => slash_command_reply(from_ts, to_ts, members),
        Err(_) => "Error desconocido".to_string(),
    }
}

/// What the listing command does with its text, in timestamps.
pub enum SlashStep {
    /// Look up the members who joined from `from_ts` to `to_ts`.
    Lookup { from_ts: i64, to_ts: i64 },
    /// Answer at once with this text.
    Reply(String),
    /// The text names a month or a year that cannot be read as a date.
    Unreadable,
}

/// Reads the listing command's text: the timestamps (UTC) of the interval to
/// look up, or the reply explaining why the dates could not be read.
pub fn slash_command_step(command_text: &str) -> (r: SlashStep)
    ensures
        (r is Unreadable) == interval_panics(lowercase_text(command_text@)),
        r is Lookup ==> exists|today: Date|
            can_be_today(today) && #[trigger] interval_timestamps(command_text@, today, r->from_ts, r->to_ts),
        r is Reply ==> exists|today: Date, err: ParseDateStrError|
            can_be_today(today) && #[trigger] interval_result(
                command_text@,
                lowercase_text(command_text@),
                today,
                Err(err),
            ) && r->Reply_0@ == interval_error_text(err, command_text@),
        r is Lookup && !interval_names_last_december(lowercase_text(command_text@)) ==> forall|today: Date|
            #[trigger] interval_timestamps(command_text@, today, r->from_ts, r->to_ts),
{
    let parsed = checked_parse_interval(command_text);
    let ghost lowered = lowercase_text(command_text@);
    match parsed {
        None => SlashStep::Unreadable,
        Some(Ok((from, to))) => {
            let ghost t = choose|t: Date| can_be_today(t) && interval_result(command_text@, lowered, t, parsed->0);
            proof {
                crate::utils::parse_interval::lemma_interval_results_valid(command_text@, lowered, t, parsed->0);
            }
            let from_ts = datetime_timestamp(from);
            let to_ts = datetime_timestamp(to);
            let r = SlashStep::Lookup { from_ts, to_ts };
            assert(can_be_today(t) && interval_result(command_text@, lowered, t, Ok((from, to))));
            assert(interval_timestamps(command_text@, t, r->from_ts, r->to_ts));
            proof {
                if !interval_names_last_december(lowered) {
                    assert forall|today: Date| #[trigger] interval_timestamps(command_text@, today, r->from_ts, r->to_ts) by {
                        assert(interval_result(command_text@, lowered, today, Ok((from, to))));
                    }
                }
            }
            r
        },
        Some(Err(e)) => {
            let ghost err = e;
            let ghost t = choose|t: Date| can_be_today(t) && interval_result(command_text@, lowered, t, parsed->0);
            let msg = interval_error_reply(e, command_text);
            assert(can_be_today(t) && interval_result(command_text@, lowered, t, Err(err)) && msg@
                == interval_error_text(err, command_text@));
            SlashStep::Reply(msg)
        },
    }
}

} // verus!
