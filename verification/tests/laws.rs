use chrono::{Datelike, NaiveDate};
use onboarding_bot::calendar::{Date, DateTime};
use onboarding_bot::event::handle_event;
use onboarding_bot::event::{Event, TeamJoinUser, TeamJoinUserProfile};
use onboarding_bot::slash_command::{slash_command_step, SlashStep};
use onboarding_bot::utils::group_members_by_month::group_members_by_month;
use onboarding_bot::utils::parse_date_str::parse_date_str;
use onboarding_bot::utils::parse_slack_id::parse_slack_id;
use onboarding_bot::utils::response_templates::tag;
use onboarding_bot::utils::start_of_month::start_of_month;
use onboarding_bot::utils::DateRound;
use onboarding_bot::utils::parse_interval::parse_interval;
use std::collections::BTreeMap;

fn timestamp(dt: DateTime) -> i64 {
    NaiveDate::from_ymd_opt(dt.date.year, dt.date.month, dt.date.day)
        .unwrap()
        .and_hms_opt(dt.hour, dt.minute, dt.second)
        .unwrap()
        .and_utc()
        .timestamp()
}

#[test]
fn formatted_dates_read_back() {
    for (y, m, d) in [(1997, 11, 3), (2024, 2, 29), (5, 1, 9), (0, 12, 31), (-44, 3, 15), (12345, 6, 7)] {
        let text = NaiveDate::from_ymd_opt(y, m, d).unwrap().format("%d/%m/%Y").to_string();
        let date = Date { year: y, month: m, day: d };
        assert_eq!(
            parse_date_str(&text, DateRound::Floor).unwrap(),
            DateTime { date, hour: 0, minute: 0, second: 0 },
            "{}",
            text
        );
        assert_eq!(
            parse_date_str(&text, DateRound::Ceil).unwrap(),
            DateTime { date, hour: 23, minute: 59, second: 59 },
            "{}",
            text
        );
    }
}

#[test]
fn floor_comes_before_ceil() {
    for text in ["3/11/1997", "2/2024", "2024", "12/1999", "-7"] {
        let floor = parse_date_str(text, DateRound::Floor).unwrap();
        let ceil = parse_date_str(text, DateRound::Ceil).unwrap();
        assert!(timestamp(floor) < timestamp(ceil), "{}", text);
    }
    for text in ["31/2/2024", "x", "1/2/3/4"] {
        assert!(parse_date_str(text, DateRound::Floor).is_err());
        assert!(parse_date_str(text, DateRound::Ceil).is_err());
    }
}

#[test]
fn slack_id_of_a_tag_is_the_id() {
    for id in ["U123", "", "a", "W9X"] {
        assert_eq!(parse_slack_id(&tag(id)), id);
    }
    assert_eq!(parse_slack_id("<@a|b|c>"), "a");
}

#[test]
fn group_keys_are_month_starts() {
    let grouped = group_members_by_month(vec![
        (1707745600, "GHI789".to_string()),
        (-1, "OLD".to_string()),
        (1908048800, "DEF456".to_string()),
    ]);
    assert_eq!(grouped.len(), 3);
    for k in grouped.keys() {
        assert_eq!(start_of_month(*k), *k);
    }
    assert_eq!(grouped[&-2678400], vec!["OLD".to_string()]);
}

#[test]
fn handle_event_records_the_new_member_today() {
    let event = Event::TeamJoin {
        user: TeamJoinUser {
            id: "U7".to_string(),
            profile: TeamJoinUserProfile { email: "e@x".to_string(), display_name: "Eva".to_string() },
            tz: "Europe/Madrid".to_string(),
            tz_label: "Central European Time".to_string(),
        },
    };
    let before = chrono::Local::now();
    let record = handle_event(event);
    let after = chrono::Local::now();
    assert_eq!(record.employee.id, "U7");
    assert_eq!(record.employee.country, "central european");
    let dates = [before.format("%d-%m-%Y").to_string(), after.format("%d-%m-%Y").to_string()];
    assert!(dates.contains(&record.employee.date));
    assert!(before.timestamp() <= record.timestamp && record.timestamp <= after.timestamp());
    let day = NaiveDate::parse_from_str(&record.employee.date, "%d-%m-%Y").unwrap();
    let midnight = day.and_hms_opt(0, 0, 0).unwrap().and_utc().timestamp();
    assert!(midnight - 86400 < record.timestamp && record.timestamp < midnight + 2 * 86400);
    assert!(after.year() >= 1970);
}

#[test]
fn slash_command_step_gives_utc_timestamps() {
    match slash_command_step("01/02/2024 29/02/2024") {
        SlashStep::Lookup { from_ts, to_ts } => {
            assert_eq!(from_ts, 1706745600);
            assert_eq!(to_ts, 1709251199);
        },
        _ => panic!("expected a lookup"),
    }
    assert!(matches!(slash_command_step("1/2/3/4"), SlashStep::Reply(_)));
    assert!(matches!(slash_command_step("0/2024"), SlashStep::Unreadable));
}

#[test]
fn only_the_last_december_depends_on_today() {
    let floor = parse_date_str("12/262142", DateRound::Floor).unwrap();
    assert_eq!(floor, DateTime { date: Date { year: 262142, month: 12, day: 1 }, hour: 0, minute: 0, second: 0 });
    let ceil = parse_date_str("12/262142", DateRound::Ceil).unwrap();
    assert_eq!((ceil.date.year, ceil.date.month), (262142, 12));
    assert!(1 <= ceil.date.day && ceil.date.day <= 31);
    let lone = parse_date_str("262142", DateRound::Ceil).unwrap();
    assert_eq!((lone.date.year, lone.date.month), (262142, 12));
    assert_eq!(
        parse_date_str("11/262142", DateRound::Ceil).unwrap(),
        DateTime { date: Date { year: 262142, month: 11, day: 30 }, hour: 23, minute: 59, second: 59 }
    );
    assert_eq!(
        parse_date_str("12/262141", DateRound::Ceil).unwrap(),
        DateTime { date: Date { year: 262141, month: 12, day: 31 }, hour: 23, minute: 59, second: 59 }
    );
}

#[test]
fn dates_among_spaces_read_as_the_date_reader_reads_them() {
    for (a, b) in [("01/01/2021", "02/01/2021"), ("2/2024", "2024"), ("1999", "3/11/1997")] {
        let one = parse_interval(&format!("   {}  ", a)).unwrap();
        assert_eq!(one, (parse_date_str(a, DateRound::Floor).unwrap(), parse_date_str(a, DateRound::Ceil).unwrap()));
        let two = parse_interval(&format!("  {}     {} ", a, b)).unwrap();
        assert_eq!(two, (parse_date_str(a, DateRound::Floor).unwrap(), parse_date_str(b, DateRound::Ceil).unwrap()));
    }
    assert!(parse_interval("  31/02/2024  2024 ").is_err());
    assert!(parse_interval(" 2024   x ").is_err());
}

#[test]
fn grouping_is_a_permutation_and_merges_over_concatenation() {
    let a = vec![(1707745600, "GHI789".to_string()), (1908048800, "DEF456".to_string())];
    let b = vec![(1708048800, "ABC123".to_string()), (-1, "OLD".to_string()), (1707745600, "GHI789".to_string())];
    let ga = group_members_by_month(a.clone());
    let gb = group_members_by_month(b.clone());
    let mut ab = a.clone();
    ab.extend(b.clone());
    let gab = group_members_by_month(ab.clone());
    let mut merged: BTreeMap<i64, Vec<String>> = ga.clone();
    for (k, v) in gb {
        merged.entry(k).or_default().extend(v);
    }
    assert_eq!(gab, merged);
    let mut all: Vec<String> = gab.values().flatten().cloned().collect();
    let mut ids: Vec<String> = ab.iter().map(|p| p.1.clone()).collect();
    all.sort();
    ids.sort();
    assert_eq!(all, ids);
    assert!(gab.values().all(|v| !v.is_empty()));
    assert!(group_members_by_month(vec![]).is_empty());
}

#[test]
fn start_of_month_is_below_idempotent_and_monotone() {
    let ts = [-8334601228800i64, -1, 0, 1, 1706745599, 1706745600, 1708306735, 1709251199, 1709251200, 8210266876799];
    for &t in &ts {
        let s = start_of_month(t);
        assert!(s <= t);
        assert_eq!(start_of_month(s), s);
        for &t2 in &ts {
            if t <= t2 {
                assert!(s <= start_of_month(t2));
            }
        }
    }
}
