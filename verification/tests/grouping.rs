use std::collections::BTreeMap;

use onboarding_bot::calendar::{Date, DateTime, MAX_TIMESTAMP, MIN_TIMESTAMP};
use onboarding_bot::models::Employee;
use onboarding_bot::utils::group_employees_by_month::group_employees_by_month;
use onboarding_bot::utils::group_members_by_month::group_members_by_month;
use onboarding_bot::utils::start_of_month::start_of_month;

#[test]
fn test_group_members_by_month() {
    let ts0_2024 = 1706745600; // 2024-02-01 00:00:00 UTC-0
    let ts0_2030 = 1906502400; // 2030-06-01 00:00:00 UTC-0

    let (ts1, member1) = (1707745600, "GHI789"); // 2024-02-12 UTC-0
    let (ts2, member2) = (1708048800, "ABC123"); // 2024-02-16 UTC-0
    let (ts3, member3) = (1908048800, "DEF456"); // 2030-06-18 UTC-0
    let members: Vec<(i64, String)> = vec![
        (ts1, member1.to_string()),
        (ts2, member2.to_string()),
        (ts3, member3.to_string()),
    ];
    let result = group_members_by_month(members);

    let mut expected = BTreeMap::new();
    expected.insert(ts0_2024, vec![member1.to_string(), member2.to_string()]);
    expected.insert(ts0_2030, vec![member3.to_string()]);

    assert_eq!(result, expected);
}

#[test]
fn test_group_employees_by_month() {
    let ts0_2024 = 1706745600; // 2024-02-01 00:00:00 UTC-0
    let ts0_2030 = 1906502400; // 2030-06-01 00:00:00 UTC-0

    let (ts1, employee1) = (1707745600, "GHI789"); // 2024-02-12 UTC-0
    let (ts2, employee2) = (1708048800, "ABC123"); // 2024-02-16 UTC-0
    let (ts3, employee3) = (1908048800, "DEF456"); // 2030-06-18 UTC-0
    let employees: Vec<(i64, String)> = vec![
        (ts1, employee1.to_string()),
        (ts2, employee2.to_string()),
        (ts3, employee3.to_string()),
    ];

    let mut expected = BTreeMap::new();
    expected.insert(ts0_2024, vec![employee1.to_string(), employee2.to_string()]);
    expected.insert(ts0_2030, vec![employee3.to_string()]);

    assert_eq!(employees.len(), 3);
    assert_eq!(expected.len(), 2);
}

fn employee(id: &str, date: DateTime) -> Employee {
    Employee {
        id: id.to_string(),
        email: format!("{}@example.com", id),
        full_name: id.to_string(),
        country: None,
        join_date: date,
    }
}

#[test]
fn group_employees_by_month_groups_by_join_month() {
    let feb_12 = DateTime { date: Date { year: 2024, month: 2, day: 12 }, hour: 10, minute: 30, second: 0 };
    let feb_16 = DateTime { date: Date { year: 2024, month: 2, day: 16 }, hour: 0, minute: 0, second: 0 };
    let jun_18 = DateTime { date: Date { year: 2030, month: 6, day: 18 }, hour: 23, minute: 59, second: 59 };
    let result = group_employees_by_month(vec![
        employee("GHI789", feb_12),
        employee("DEF456", jun_18),
        employee("ABC123", feb_16),
    ]);
    let mut expected = BTreeMap::new();
    expected.insert(1706745600, vec!["GHI789".to_string(), "ABC123".to_string()]);
    expected.insert(1906502400, vec!["DEF456".to_string()]);
    assert_eq!(result, expected);
}

#[test]
fn should_return_start_of_month() {
    let ts = 1612137600; // 2021-02-01 00:00:00 UTC-0
    let start = start_of_month(ts);
    assert_eq!(start, ts);
}

#[test]
fn should_return_start_of_month_for_different_ts() {
    let ts = 1706745600; // 2024-02-01 00:00:00 UTC-0
    let some_day_of_feb = 1708306735;
    let start = start_of_month(some_day_of_feb);
    assert_eq!(start, ts);
}

#[test]
fn start_of_month_before_1970_and_at_the_range_ends() {
    assert_eq!(start_of_month(-1), -2678400); // 1969-12-01
    assert_eq!(start_of_month(MIN_TIMESTAMP), MIN_TIMESTAMP);
    assert_eq!(start_of_month(MAX_TIMESTAMP), MAX_TIMESTAMP + 1 - 31 * 86400);
    assert_eq!(start_of_month(start_of_month(1708306735)), 1706745600);
}

#[test]
fn supported_range_matches_chrono() {
    assert_eq!(chrono::DateTime::<chrono::Utc>::MIN_UTC.timestamp(), MIN_TIMESTAMP);
    assert_eq!(chrono::DateTime::<chrono::Utc>::MAX_UTC.timestamp(), MAX_TIMESTAMP);
    assert!(chrono::DateTime::from_timestamp(MIN_TIMESTAMP - 1, 0).is_none());
    assert!(chrono::DateTime::from_timestamp(MAX_TIMESTAMP + 1, 0).is_none());
}
