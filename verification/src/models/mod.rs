//! The records that the bot stores.
use vstd::prelude::*;
use crate::calendar::DateTime;

verus! {

/// An employee and the date-time they joined.
pub struct Employee {
    pub id: String,
    pub email: String,
    pub full_name: String,
    pub country: Option<String>,
    pub join_date: DateTime,
}

/// A project with its administrator.
pub struct Projects {
    pub id: uuid::Uuid,
    pub name: String,
    pub admin_id: String,
}

/// An employee being onboarded onto a project.
pub struct Onboardees {
    pub project_id: uuid::Uuid,
    pub employee_id: String,
    pub onboarding_date: DateTime,
}

/// A user allowed to manage onboarding.
pub struct Admins {
    pub id: String,
}

} // verus!
