//! Recording a member who joined the workspace.
use vstd::prelude::*;
use crate::bridge::{near_local_day, day_month_year_pattern, day_month_year_text, format_date, local_now, lowercase, lowercase_text, string_from_chars};
use crate::calendar::Date;
use crate::event::{Employee, TeamJoinUser};
use crate::text::{chars_of, remove_pattern, without_pattern};

verus! {

/// A new employee and the timestamp at which they joined.
pub struct TeamJoinRecord {
    pub employee: Employee,
    pub timestamp: i64,
}

/// The employee recorded for a user who joined on `today`: id, e-mail and
/// display name from the profile, the time-zone label lower-cased without
/// " time" as the country, and the date as `DD-MM-YYYY`.
pub open spec fn is_team_join_employee(e: Employee, user: TeamJoinUser, today: Date) -> bool {
    &&& e.id@ == user.id@
    &&& e.email@ == user.profile.email@
    &&& e.full_name@ == user.profile.display_name@
    &&& e.country@ == without_pattern(lowercase_text(user.tz_label@), " time"@)
    &&& e.date@ == day_month_year_text(today, '-')
}

/// The employee recorded for a user who joined on `today`.
pub fn team_join_employee(user: TeamJoinUser, today: Date) -> (e: Employee)
    requires
        today.is_valid(),
    ensures
        is_team_join_employee(e, user, today),
{
    let ghost u = user;
    let lowered = lowercase(user.tz_label.as_str());
    proof {
        reveal_strlit(" time");
        reveal_strlit("%d-%m-%Y");
        assert("%d-%m-%Y"@ =~= day_month_year_pattern('-'));
    }
    let country = remove_pattern(&chars_of(lowered.as_str()), &chars_of(" time"));
    let date = format_date(today, "%d-%m-%Y");
    Employee {
        id: user.id,
        email: user.profile.email,
        full_name: user.profile.display_name,
        country: string_from_chars(&country),
        date,
    }
}

/// Records a user who joined now: the employee, dated with today's local date,
/// and the current timestamp.
pub fn handle_team_join(user: TeamJoinUser) -> (r: TeamJoinRecord)
    ensures
        exists|today: Date|
            today.is_valid() && #[trigger] is_team_join_employee(r.employee, user, today) && near_local_day(
                r.timestamp as int,
                today,
            ),
        r.timestamp >= 0,
{
    let (timestamp, today) = local_now();
    let employee = team_join_employee(user, today);
    let r = TeamJoinRecord { employee, timestamp };
    assert(is_team_join_employee(r.employee, user, today) && near_local_day(r.timestamp as int, today));
    r
}

} // verus!
