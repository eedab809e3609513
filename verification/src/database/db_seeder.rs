//! Turning seed records into employees for the Redis-backed store.
use vstd::prelude::*;
use crate::event::Employee;

verus! {

/// An employee as listed in a seed file; `date` is written `DD/MM/YYYY`.
pub struct SeedEmployee {
    pub id: String,
    pub name: String,
    pub email: String,
    pub date: String,
    pub country: String,
}

/// The employee stored for a seed record: the same fields, the name as full name.
pub fn to_employee(seed_employee: &SeedEmployee) -> (r: Employee)
    ensures
        r.id == seed_employee.id,
        r.email == seed_employee.email,
        r.full_name == seed_employee.name,
        r.country == seed_employee.country,
        r.date == seed_employee.date,
{
    Employee {
        id: seed_employee.id.clone(),
        email: seed_employee.email.clone(),
        full_name: seed_employee.name.clone(),
        country: seed_employee.country.clone(),
        date: seed_employee.date.clone(),
    }
}

} // verus!
