//! The rules that the Postgres-backed store applies to what its queries return.
pub mod db_seeder;

use vstd::prelude::*;

verus! {

/// Whether a user may manage onboarding, given how many admin rows carry their
/// id. The check is inverted on purpose: while no admins are registered,
/// everyone is allowed, and a registered admin is not.
pub fn is_onboarding_admin_given(admin_rows_found: usize) -> (r: bool)
    ensures
        r == (admin_rows_found == 0),
{
    admin_rows_found == 0
}

/// Whether a project may be created, given how many projects already have its
/// name (ignoring case).
pub fn check_new_project(same_name_projects: usize) -> (r: Result<(), String>)
    ensures
        r is Ok <==> same_name_projects == 0,
        r matches Err(e) ==> e@ == "Project already exists"@,
{
    if same_name_projects > 0 {
        return Err("Project already exists".to_string());
    }
    Ok(())
}

} // verus!
