use std::collections::BTreeMap;

use onboarding_bot::utils::response_templates::{member_list, member_list_by_month, new_members_template, tag};

#[test]
fn test_tag() {
    assert_eq!(tag("ABC123"), "<@ABC123>");
}

#[test]
fn test_member_list() {
    let members = vec!["ABC123".to_string(), "DEF456".to_string(), "GHI789".to_string()];
    let expected = "- <@ABC123>\n- <@DEF456>\n- <@GHI789>";
    assert_eq!(member_list(members), expected);
}

#[test]
fn test_member_list_by_month() {
    let one_week = 604800;
    let jun_2030 = 1906502400;
    let feb_2024 = 1706745600;
    let mut members_by_month = BTreeMap::new();
    members_by_month.insert(feb_2024 + one_week, vec!["ABC123".to_string()]);
    members_by_month.insert(jun_2030 + one_week, vec!["DEF456".to_string(), "GHI789".to_string()]);

    let expected = "Junio 2030:\n- <@DEF456>\n- <@GHI789>\n\nFebrero 2024:\n- <@ABC123>";
    assert_eq!(member_list_by_month(members_by_month), expected);
}

#[test]
fn test_new_members_template() {
    let one_week = 604800;
    let jun_2030 = 1906502400;
    let feb_2024 = 1706745600;
    let mut members_by_month = BTreeMap::new();
    members_by_month.insert(feb_2024 + one_week, vec!["ABC123".to_string()]);
    members_by_month.insert(jun_2030 + one_week, vec!["DEF456".to_string(), "GHI789".to_string()]);

    let from_ts = 1612137600; // 2021-02-01 00:00:00 UTC-0
    let to_ts = 1906502400; // 2030-06-01 00:00:00 UTC-0
    let result = new_members_template(from_ts, to_ts, members_by_month);

    let expected = "Los que entraron desde el 01/02/2021 hasta el 01/06/2030 son: \nJunio 2030:\n- <@DEF456>\n- <@GHI789>\n\nFebrero 2024:\n- <@ABC123>";

    assert_eq!(result, expected);
}

#[test]
fn member_list_of_nobody_is_empty() {
    assert_eq!(member_list(vec![]), "");
    assert_eq!(member_list_by_month(BTreeMap::new()), "");
}

#[test]
fn new_members_template_refuses_timestamps_out_of_range() {
    let result = new_members_template(i64::MAX, 0, BTreeMap::new());
    assert_eq!(result, "Invalid 'from' or 'to' timestamps");
}

#[test]
fn new_members_template_writes_every_month_name_and_far_years() {
    let mut members_by_month = BTreeMap::new();
    // 1999-12-01, 1999-01-01 and the start of year 10000
    members_by_month.insert(944006400, vec!["A".to_string()]);
    members_by_month.insert(915148800, vec!["B".to_string()]);
    members_by_month.insert(253402300800, vec!["C".to_string()]);
    let result = new_members_template(-62167219200, 253402300800, members_by_month);
    assert_eq!(
        result,
        "Los que entraron desde el 01/01/0000 hasta el 01/01/+10000 son: \nEnero 10000:\n- <@C>\n\nDiciembre 1999:\n- <@A>\n\nEnero 1999:\n- <@B>"
    );
}

#[test]
fn new_members_template_signs_years_before_zero() {
    let result = new_members_template(-62198755200, -62198755200, BTreeMap::new());
    assert_eq!(result, "Los que entraron desde el 01/01/-0001 hasta el 01/01/-0001 son: \n");
}
