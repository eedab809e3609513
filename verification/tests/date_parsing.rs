use chrono::Datelike;
use onboarding_bot::calendar::{Date, DateTime};
use onboarding_bot::utils::last_day_of_month::last_day_of_month;
use onboarding_bot::utils::parse_date_str::parse_date_str;
use onboarding_bot::utils::parse_interval::{checked_parse_interval, parse_interval};
use onboarding_bot::utils::{DateRound, ParseDateStrError};

fn at(year: i32, month: u32, day: u32, hour: u32, minute: u32, second: u32) -> DateTime {
    DateTime { date: Date { year, month, day }, hour, minute, second }
}

fn eod(year: i32, month: u32, day: u32) -> DateTime {
    at(year, month, day, 23, 59, 59)
}

fn bod(year: i32, month: u32, day: u32) -> DateTime {
    at(year, month, day, 0, 0, 0)
}

#[test]
fn should_return_eoy_given_only_a_year_and_ceil() {
    let year = chrono::Utc::now().year();
    let year_str = &year.to_string();
    let eoy = eod(year, 12, 31);

    let d = parse_date_str(year_str, DateRound::Ceil);

    assert_eq!(d.unwrap(), eoy);
}

#[test]
fn should_return_first_day_of_year_given_a_year_and_floor() {
    let year = chrono::Utc::now().year();
    let year_str = &year.to_string();
    let jan1 = bod(year, 1, 1);

    let d = parse_date_str(year_str, DateRound::Floor);

    assert_eq!(d.unwrap(), jan1);
}

#[test]
fn should_return_first_day_of_month_given_month_year_and_floor() {
    let year = 2024;
    let month = 2;
    let date_str = format!("{}/{}", month, year);
    let feb_1st = bod(year, month, 1);

    let d = parse_date_str(&date_str, DateRound::Floor);

    assert_eq!(d.unwrap(), feb_1st);
}

#[test]
fn should_return_last_day_of_month_given_month_year_and_ceil() {
    let year = 2024;
    let month = 2;
    let date_str = format!("{}/{}", month, year);
    let feb_29 = eod(year, month, 29);

    let d = parse_date_str(&date_str, DateRound::Ceil);

    assert_eq!(d.unwrap(), feb_29);
}

#[test]
fn should_return_same_day_given_a_full_date() {
    let day = 3;
    let month = 11;
    let year = 1997;

    let date = chrono::NaiveDate::from_ymd_opt(year, month, day).unwrap();
    let date_str = &date.format("%d/%m/%Y").to_string();

    let res_bod = parse_date_str(date_str, DateRound::Floor);
    let res_eod = parse_date_str(date_str, DateRound::Ceil);

    assert_eq!(res_bod.unwrap(), bod(year, month, day));
    assert_eq!(res_eod.unwrap(), eod(year, month, day));
}

#[test]
fn should_err_on_invalid_input() {
    let invalid_inputs = [
        "",          // generic invalid
        " ",         // generic invalid
        "a",         // generic invalid
        "1/2/3/4",   // too many parts
        "1/2/3/4/5", // too many parts
        "30/2/2024", // feb is never 30
        "29/2/2023", // 2023 is not a leap year
        "31/4/2023", // april has 30 days
    ];

    for input in invalid_inputs {
        let res = parse_date_str(input, DateRound::Floor);
        assert!(res.is_err());
    }
}

#[test]
fn parse_date_str_reports_the_format_message() {
    let res = parse_date_str("31/4/2023", DateRound::Ceil);
    assert_eq!(
        res,
        Err("Invalid date format, doesn't match any of the supported formats".to_string())
    );
}

#[test]
fn parse_date_str_reads_signs_as_str_parse_does() {
    assert_eq!(parse_date_str("+3/+11/+1997", DateRound::Floor).unwrap(), bod(1997, 11, 3));
    assert_eq!(parse_date_str("1/1/-5", DateRound::Floor).unwrap(), bod(-5, 1, 1));
    assert!(parse_date_str("-1/1/2000", DateRound::Floor).is_err());
    assert!(parse_date_str("01/01/99999999999", DateRound::Floor).is_err());
    assert_eq!(parse_date_str("2/2000", DateRound::Ceil).unwrap(), eod(2000, 2, 29));
    assert_eq!(parse_date_str("2/1900", DateRound::Ceil).unwrap(), eod(1900, 2, 28));
    assert_eq!(parse_date_str("12/2023", DateRound::Ceil).unwrap(), eod(2023, 12, 31));
}

#[test]
fn should_return_last_day_of_the_given_month() {
    for (year, month, expected) in [
        (2024, 2, 29), // leap year
        (2023, 2, 28), // non-leap year
        (2023, 4, 30),
        (2023, 6, 30),
        (2023, 9, 30),
        (2023, 11, 30),
    ] {
        let last_day = last_day_of_month(year, month).unwrap();
        assert_eq!(last_day.day, expected);
    }
}

#[test]
fn returns_none_if_month_is_invalid() {
    let invalid_months = vec![0, 13];
    for month in invalid_months {
        let last_day = last_day_of_month(2023, month);
        assert!(last_day.is_err());
    }
}

#[test]
fn last_day_of_month_names_the_invalid_month() {
    match last_day_of_month(2023, 13) {
        Err(ParseDateStrError::DatePart(text)) => assert_eq!(text, "13"),
        other => panic!("unexpected {:?}", other),
    }
    assert_eq!(last_day_of_month(2023, 12).unwrap(), Date { year: 2023, month: 12, day: 31 });
}

#[test]
fn should_return_from_to_today_tuple_with_one_date() {
    let param = "01/01/2021";
    let param_date_eod = eod(2021, 1, 1);
    let param_date_bod = bod(2021, 1, 1);

    let (from, to) = parse_interval(param).unwrap();

    assert_eq!(from, param_date_bod);
    assert_eq!(to, param_date_eod);
}

#[test]
fn should_return_from_to_today_tuple_with_two_dates() {
    let from = "01/01/2021";
    let to = "02/01/2021";
    let from_date_bod = bod(2021, 1, 1);
    let to_date_eod = eod(2021, 1, 2);

    let (from, to) = parse_interval(format!("{} {}", from, to).as_str()).unwrap();

    assert_eq!(from, from_date_bod);
    assert_eq!(to, to_date_eod);
}

#[test]
fn parse_interval_errors() {
    assert!(matches!(parse_interval("   "), Err(ParseDateStrError::NoDate)));
    match parse_interval("1/1/2021 2/1/2021 3/1/2021") {
        Err(ParseDateStrError::Interval(text)) => assert_eq!(text, "1/1/2021 2/1/2021 3/1/2021"),
        other => panic!("unexpected {:?}", other),
    }
    match parse_interval("1/1/2021 Hoy") {
        Err(ParseDateStrError::Date(text)) => assert_eq!(text, "hoy"),
        other => panic!("unexpected {:?}", other),
    }
    match parse_interval("\t2021  ") {
        Ok((from, to)) => {
            assert_eq!(from, bod(2021, 1, 1));
            assert_eq!(to, eod(2021, 12, 31));
        },
        other => panic!("unexpected {:?}", other),
    }
}

#[test]
fn checked_parse_interval_refuses_what_cannot_be_read() {
    assert!(checked_parse_interval("13/2024").is_none());
    assert!(checked_parse_interval("1/2024 300000").is_none());
    assert!(checked_parse_interval("13/2024 1/2024 1/2025").is_some());
    assert!(matches!(checked_parse_interval("2/2024"), Some(Ok(_))));
}
