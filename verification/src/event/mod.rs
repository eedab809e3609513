//! Handling of the callbacks that Slack posts to the events endpoint.
pub mod team_join;
pub mod types;

use vstd::prelude::*;
use crate::authenticate::check_credentials;
use crate::bridge::near_local_day;
use crate::calendar::Date;
use crate::event::team_join::{handle_team_join, is_team_join_employee, TeamJoinRecord};

verus! {

/// A callback from Slack: the URL check, or an event.
#[derive(Debug)]
pub enum SlackCallback {
    Challenge { token: String, challenge: String },
    EventCallback { token: String, api_app_id: String, event: Event },
}

/// An event that the bot handles.
#[derive(Debug)]
pub enum Event {
    TeamJoin { user: TeamJoinUser },
}

/// The user who joined the workspace.
#[derive(Debug)]
pub struct TeamJoinUser {
    pub id: String,
    pub profile: TeamJoinUserProfile,
    pub tz: String,
    pub tz_label: String,
}

#[derive(Debug)]
pub struct TeamJoinUserProfile {
    pub email: String,
    pub display_name: String,
}

/// An employee as stored when they join: the join date is `DD-MM-YYYY` text.
#[derive(Debug)]
pub struct Employee {
    pub id: String,
    pub email: String,
    pub full_name: String,
    pub country: String,
    pub date: String,
}

/// What the events endpoint does with a callback.
pub enum CallbackAction {
    /// Answer Slack's URL check.
    Challenge,
    /// Handle an authenticated event.
    Handle(Event),
    /// Ignore an event whose credentials are wrong.
    Unauthorized,
}

/// Decides what to do with a callback, given the expected token and app id.
pub fn route_callback(callback: SlackCallback, expected_token: &str, expected_app_id: &str) -> (r:
    CallbackAction)
    ensures
        match callback {
            SlackCallback::Challenge { .. } => r is Challenge,
            SlackCallback::EventCallback { token, api_app_id, event } => if token@ == expected_token@
                && api_app_id@ == expected_app_id@ {
                r == CallbackAction::Handle(event)
            } else {
                r is Unauthorized
            },
        },
{
    match callback {
        SlackCallback::Challenge { .. } => CallbackAction::Challenge,
        SlackCallback::EventCallback { token, api_app_id, event } => {
            if check_credentials(token.as_str(), api_app_id.as_str(), expected_token, expected_app_id).is_ok() {
                CallbackAction::Handle(event)
            } else {
                CallbackAction::Unauthorized
            }
        },
    }
}

/// Handles an event: for a new member, the record to store, dated today and
/// stamped with the current time.
pub fn handle_event(event: Event) -> (r: TeamJoinRecord)
    ensures
        match event {
            Event::TeamJoin { user } => exists|today: Date|
                today.is_valid() && #[trigger] is_team_join_employee(r.employee, user, today)
                    && near_local_day(r.timestamp as int, today),
        },
        r.timestamp >= 0,
{
    match event {
        Event::TeamJoin { user } => handle_team_join(user),
    }
}

} // verus!
