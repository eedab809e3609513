//! Grouping employees by the month they joined in.
use vstd::prelude::*;
use crate::bridge::datetime_timestamp;
use crate::calendar::{lemma_valid_timestamp_in_range, timestamp_in_range};
use crate::utils::start_of_month::{lemma_start_of_month_bounds, start_of_month_spec};
use crate::models::Employee;
use crate::utils::group_members_by_month::{
    group_members_by_month, grouped_by_month, ids_in_month, ids_of, in_month, join_month, joins_in_range,
    lemma_grouped_by_month,
};
use crate::utils::response_templates::group_views;
use crate::utils::EmployeesByMonth;

verus! {

/// The `(join timestamp, id)` pairs of the employees, in order.
pub open spec fn join_records(s: Seq<Employee>) -> Seq<(i64, String)> {
    s.map_values(|e: Employee| (e.join_date.timestamp() as i64, e.id))
}

pub open spec fn join_dates_valid(s: Seq<Employee>) -> bool {
    forall|i: int| 0 <= i < s.len() ==> (#[trigger] s[i]).join_date.is_valid()
}

/// Groups employee ids under the start of the month (UTC) they joined in,
/// keeping each month's ids in the order given.
pub fn group_employees_by_month(employees: Vec<Employee>) -> (r: EmployeesByMonth)
    requires
        join_dates_valid(employees@),
    ensures
        group_views(r@) == grouped_by_month(join_records(employees@)),
        forall|k: i64| #[trigger]
            r@.contains_key(k) <==> exists|i: int|
                0 <= i < employees@.len() && join_month(join_records(employees@)[i]) == k,
        forall|k: i64| #[trigger]
            r@.contains_key(k) ==> r@[k]@ == ids_in_month(join_records(employees@), k as int),
        forall|i: int|
            0 <= i < employees@.len() ==> r@.contains_key(
                start_of_month_spec(#[trigger] employees@[i].join_date.timestamp()) as i64,
            ) && r@[start_of_month_spec(employees@[i].join_date.timestamp()) as i64]@.contains(employees@[i].id),
        forall|k: i64| #[trigger]
            r@.contains_key(k) ==> exists|i: int|
                0 <= i < employees@.len() && start_of_month_spec(employees@[i].join_date.timestamp()) == k,
{
    let mut members: Vec<(i64, String)> = Vec::new();
    let mut i: usize = 0;
    while i < employees.len()
        invariant
            i <= employees@.len(),
            join_dates_valid(employees@),
            members@ == join_records(employees@).take(i as int),
            joins_in_range(members@),
        decreases employees@.len() - i,
    {
        let ts = datetime_timestamp(employees[i].join_date);
        proof {
            lemma_valid_timestamp_in_range(employees@[i as int].join_date);
        }
        members.push((ts, employees[i].id.clone()));
        assert(members@ =~= join_records(employees@).take(i + 1));
        i += 1;
    }
    assert(join_records(employees@).take(employees@.len() as int) =~= join_records(employees@));
    let r = group_members_by_month(members);
    proof {
        lemma_employees_grouped_by_own_month(employees@);
        assert forall|i: int| 0 <= i < employees@.len() implies r@.contains_key(
            start_of_month_spec(#[trigger] employees@[i].join_date.timestamp()) as i64,
        ) && r@[start_of_month_spec(employees@[i].join_date.timestamp()) as i64]@.contains(employees@[i].id) by {
            let k = start_of_month_spec(employees@[i].join_date.timestamp()) as i64;
            assert(grouped_by_month(join_records(employees@)).contains_key(k));
            assert(group_views(r@).contains_key(k));
            assert(group_views(r@)[k] == r@[k]@);
        }
        assert forall|k: i64| #[trigger] r@.contains_key(k) implies exists|i: int|
            0 <= i < employees@.len() && start_of_month_spec(employees@[i].join_date.timestamp()) == k by {
            assert(group_views(r@).contains_key(k));
            assert(grouped_by_month(join_records(employees@)).contains_key(k));
        }
    }
    r
}

/// Each employee is grouped under the start of the month (UTC) of its own join
/// date-time, and every group's key is the month start of some employee's join.
pub proof fn lemma_employees_grouped_by_own_month(s: Seq<Employee>)
    requires
        join_dates_valid(s),
    ensures
        forall|i: int|
            0 <= i < s.len() ==> {
                let k = start_of_month_spec(#[trigger] s[i].join_date.timestamp()) as i64;
                &&& grouped_by_month(join_records(s)).contains_key(k)
                &&& grouped_by_month(join_records(s))[k].contains(s[i].id)
            },
        forall|k: i64| #[trigger]
            grouped_by_month(join_records(s)).contains_key(k) ==> exists|i: int|
                0 <= i < s.len() && start_of_month_spec(s[i].join_date.timestamp()) == k,
{
    let rs = join_records(s);
    assert(joins_in_range(rs)) by {
        assert forall|i: int| 0 <= i < rs.len() implies timestamp_in_range(#[trigger] rs[i].0 as int) by {
            lemma_valid_timestamp_in_range(s[i].join_date);
        }
    }
    lemma_grouped_by_month(rs);
    assert forall|i: int| 0 <= i < s.len() implies {
        let k = start_of_month_spec(#[trigger] s[i].join_date.timestamp()) as i64;
        &&& grouped_by_month(rs).contains_key(k)
        &&& grouped_by_month(rs)[k].contains(s[i].id)
    } by {
        lemma_valid_timestamp_in_range(s[i].join_date);
        lemma_start_of_month_bounds(s[i].join_date.timestamp());
        let k = start_of_month_spec(s[i].join_date.timestamp()) as i64;
        assert(rs[i] == (s[i].join_date.timestamp() as i64, s[i].id));
        assert(join_month(rs[i]) == k);
        let pk = in_month(k as int);
        assert(pk(rs[i]));
        broadcast use vstd::seq_lib::group_filter_ensures;
        assert(rs.filter(pk).contains(rs[i]));
        let j = choose|j: int| 0 <= j < rs.filter(pk).len() && rs.filter(pk)[j] == rs[i];
        assert(ids_of(rs.filter(pk))[j] == s[i].id);
        assert(ids_in_month(rs, k as int).contains(s[i].id));
    }
    assert forall|k: i64| #[trigger] grouped_by_month(rs).contains_key(k) implies exists|i: int|
        0 <= i < s.len() && start_of_month_spec(s[i].join_date.timestamp()) == k by {
        let i = choose|i: int| 0 <= i < rs.len() && join_month(rs[i]) == k;
        lemma_valid_timestamp_in_range(s[i].join_date);
        assert(rs[i].0 == s[i].join_date.timestamp());
    }
}

} // verus!
