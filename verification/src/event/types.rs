//! The payloads that Slack sends to the events endpoint.
use vstd::prelude::*;

verus! {

/// A callback from Slack: the URL check, or an event.
#[derive(Debug)]
pub enum SlackCallback {
    Challenge { token: String, challenge: String },
    EventCallback { token: String, api_app_id: String, event: Event },
}

/// An event that the bot handles.
#[derive(Debug)]
pub enum Event {
    TeamJoin { user: TeamJoinUser },
}

/// The user who joined the workspace.
#[derive(Debug)]
pub struct TeamJoinUser {
    pub id: String,
    pub profile: TeamJoinUserProfile,
    pub tz: String,
    pub tz_label: String,
}

#[derive(Debug)]
pub struct TeamJoinUserProfile {
    pub email: String,
    pub display_name: String,
}

/// A workspace member with the payload it was built from.
#[derive(Debug)]
pub struct Member {
    pub id: String,
    pub email: String,
    pub full_name: String,
    pub country: String,
    pub _raw: TeamJoinUser,
}

} // verus!
