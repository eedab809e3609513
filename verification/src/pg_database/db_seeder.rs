//! Turning seed records into employees to store.
use vstd::prelude::*;
use crate::bridge::datetime_from_timestamp;
use crate::calendar::timestamp_in_range;
use crate::models::Employee;

verus! {

/// An employee as listed in a seed file; `date` is the join timestamp.
pub struct SeedEmployee {
    pub id: String,
    pub name: String,
    pub email: String,
    pub date: i64,
    pub country: String,
}

/// The employee stored for a seed record: same id, e-mail, name and country,
/// joined at the date-time (UTC) of the seed's timestamp.
pub open spec fn is_seeded_employee(e: Employee, s: SeedEmployee) -> bool {
    &&& e.id@ == s.id@
    &&& e.email@ == s.email@
    &&& e.full_name@ == s.name@
    &&& e.country matches Some(c) && c@ == s.country@
    &&& e.join_date.is_valid()
    &&& e.join_date.timestamp() == s.date
}

/// All seed timestamps are in the supported range.
pub open spec fn seed_dates_in_range(s: Seq<SeedEmployee>) -> bool {
    forall|i: int| 0 <= i < s.len() ==> timestamp_in_range(#[trigger] s[i].date as int)
}

/// The employee stored for a seed record.
pub fn to_employee(seed_employee: &SeedEmployee) -> (r: Employee)
    requires
        timestamp_in_range(seed_employee.date as int),
    ensures
        is_seeded_employee(r, *seed_employee),
{
    let join_date = datetime_from_timestamp(seed_employee.date);
    assert(join_date is Some);
    Employee {
        id: seed_employee.id.clone(),
        email: seed_employee.email.clone(),
        full_name: seed_employee.name.clone(),
        country: Some(seed_employee.country.clone()),
        join_date: join_date.unwrap(),
    }
}

/// The employees to store for the seed records, one per record, in order.
pub fn seed_database(seed_employees: Vec<SeedEmployee>) -> (r: Vec<Employee>)
    requires
        seed_dates_in_range(seed_employees@),
    ensures
        r@.len() == seed_employees@.len(),
        forall|i: int| 0 <= i < r@.len() ==> is_seeded_employee(#[trigger] r@[i], seed_employees@[i]),
{
    let mut employees: Vec<Employee> = Vec::new();
    let mut i: usize = 0;
    while i < seed_employees.len()
        invariant
            i <= seed_employees@.len(),
            seed_dates_in_range(seed_employees@),
            employees@.len() == i,
            forall|k: int| 0 <= k < i ==> is_seeded_employee(#[trigger] employees@[k], seed_employees@[k]),
        decreases seed_employees@.len() - i,
    {
        assert(timestamp_in_range(seed_employees@[i as int].date as int));
        let employee = to_employee(&seed_employees[i]);
        employees.push(employee);
        i += 1;
    }
    employees
}

} // verus!
