//! Date handling, grouping and message formatting for a Slack onboarding bot.
pub mod bridge;
pub mod authenticate;
pub mod calendar;
pub mod database;
pub mod event;
pub mod models;
pub mod pg_database;
pub mod slash_command;
pub mod text;
pub mod utils;
