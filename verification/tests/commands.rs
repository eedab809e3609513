use onboarding_bot::authenticate::check_credentials;
use onboarding_bot::calendar::{Date, DateTime};
use onboarding_bot::database::db_seeder::{to_employee as redis_to_employee, SeedEmployee as RedisSeedEmployee};
use onboarding_bot::database::{zrange_reply_panics, zrange_vec_to_tuple_vec};
use onboarding_bot::event::team_join::team_join_employee;
use onboarding_bot::event::{route_callback, CallbackAction, Event, SlackCallback, TeamJoinUser, TeamJoinUserProfile};
use onboarding_bot::models::Employee;
use onboarding_bot::pg_database::db_seeder::{seed_database, to_employee, SeedEmployee};
use onboarding_bot::pg_database::{check_new_project, is_onboarding_admin_given};
use onboarding_bot::slash_command::nuevo_proyecto_command::{
    nuevo_proyecto_reply, nuevo_proyecto_step, parse_project_command, ProjectStep,
};
use onboarding_bot::slash_command::nuevos_command::{nuevos_command_reply, nuevos_command_step, NuevosStep};
use onboarding_bot::calendar::in_timestamp_range;
use onboarding_bot::slash_command::{interval_error_reply, joins_all_in_range, slash_command_lookup_reply, slash_command_reply};
use onboarding_bot::utils::date_to_timestamp::{date_to_timestamp, midnight_timestamp};
use onboarding_bot::utils::load_env::{env_var_names, first_unset_env_var};
use onboarding_bot::utils::parse_slack_id::parse_slack_id;
use onboarding_bot::utils::ParseDateStrError;

#[test]
fn should_parse_the_score_and_return_a_vec_of_tuples() {
    let v = vec!["employee1".to_string(), "123".to_string(), "employee2".to_string(), "456".to_string()];
    let result = zrange_vec_to_tuple_vec(v);
    assert_eq!(result, Ok(vec![(123, "employee1".to_string()), (456, "employee2".to_string())]));
}

#[test]
fn zrange_reply_with_a_bad_score_fails() {
    let v = vec!["employee1".to_string(), "12x".to_string()];
    assert_eq!(zrange_vec_to_tuple_vec::<i64>(v), Err("Failed to parse score".to_string()));
    let odd = vec!["e1".to_string(), "1".to_string(), "e2".to_string(), "x".to_string(), "e3".to_string()];
    assert!(!zrange_reply_panics::<i64>(&odd));
    assert_eq!(zrange_vec_to_tuple_vec::<i64>(odd), Err("Failed to parse score".to_string()));
    let dangling = vec!["e1".to_string(), "1".to_string(), "e2".to_string()];
    assert!(zrange_reply_panics::<i64>(&dangling));
    assert!(!zrange_reply_panics::<i64>(&vec!["e1".to_string(), "1".to_string()]));
    let wide = vec!["e".to_string(), "4000000000".to_string()];
    assert_eq!(zrange_vec_to_tuple_vec::<i32>(wide.clone()), Err("Failed to parse score".to_string()));
    assert_eq!(zrange_vec_to_tuple_vec::<u32>(wide.clone()), Ok(vec![(4000000000u32, "e".to_string())]));
    assert_eq!(zrange_vec_to_tuple_vec::<i64>(wide), Ok(vec![(4000000000i64, "e".to_string())]));
    let v = vec!["a".to_string(), "-9223372036854775808".to_string()];
    assert_eq!(zrange_vec_to_tuple_vec(v), Ok(vec![(i64::MIN, "a".to_string())]));
    let v = vec!["a".to_string(), "9223372036854775808".to_string()];
    assert!(zrange_vec_to_tuple_vec::<i64>(v).is_err());
    assert_eq!(zrange_vec_to_tuple_vec::<i64>(vec![]), Ok(vec![]));
}

#[test]
fn parse_slack_id_reads_mentions() {
    assert_eq!(parse_slack_id("<@U123|juan>"), "U123");
    assert_eq!(parse_slack_id("<@U123>"), "U123");
    assert_eq!(parse_slack_id("<@<@U9>>"), "U9");
    assert_eq!(parse_slack_id("U123"), "U123");
    assert_eq!(parse_slack_id("<@a>|"), "a>");
    assert_eq!(parse_slack_id(""), "");
}

#[test]
fn credentials_must_both_match() {
    assert_eq!(check_credentials("some_token", "some_app_id", "some_token", "some_app_id"), Ok(()));
    assert_eq!(
        check_credentials("asdas", "123", "some_token", "some_app_id"),
        Err("Invalid token or app_id".to_string())
    );
    assert!(check_credentials("some_token", "123", "some_token", "some_app_id").is_err());
}

fn user() -> TeamJoinUser {
    TeamJoinUser {
        id: "U1".to_string(),
        profile: TeamJoinUserProfile { email: "a@b.c".to_string(), display_name: "Ana".to_string() },
        tz: "America/Argentina/Buenos_Aires".to_string(),
        tz_label: "Argentina Time".to_string(),
    }
}

#[test]
fn callbacks_are_routed_by_kind_and_credentials() {
    let challenge = SlackCallback::Challenge { token: "t".to_string(), challenge: "c".to_string() };
    assert!(matches!(route_callback(challenge, "t", "a"), CallbackAction::Challenge));
    let ok = SlackCallback::EventCallback {
        token: "t".to_string(),
        api_app_id: "a".to_string(),
        event: Event::TeamJoin { user: user() },
    };
    match route_callback(ok, "t", "a") {
        CallbackAction::Handle(Event::TeamJoin { user }) => assert_eq!(user.id, "U1"),
        _ => panic!("expected the event to be handled"),
    }
    let bad = SlackCallback::EventCallback {
        token: "x".to_string(),
        api_app_id: "a".to_string(),
        event: Event::TeamJoin { user: user() },
    };
    assert!(matches!(route_callback(bad, "t", "a"), CallbackAction::Unauthorized));
}

#[test]
fn team_join_employee_takes_country_and_date() {
    let e = team_join_employee(user(), Date { year: 2024, month: 3, day: 7 });
    assert_eq!(e.id, "U1");
    assert_eq!(e.email, "a@b.c");
    assert_eq!(e.full_name, "Ana");
    assert_eq!(e.country, "argentina");
    assert_eq!(e.date, "07-03-2024");
}

#[test]
fn pg_seed_records_become_employees() {
    let seeds = vec![
        SeedEmployee {
            id: "1".to_string(),
            name: "Ana".to_string(),
            email: "ana@x".to_string(),
            date: 1706745600,
            country: "ar".to_string(),
        },
        SeedEmployee {
            id: "2".to_string(),
            name: "Beto".to_string(),
            email: "beto@x".to_string(),
            date: 1708306735,
            country: "uy".to_string(),
        },
    ];
    let one = to_employee(&seeds[0]);
    assert_eq!(one.join_date, DateTime { date: Date { year: 2024, month: 2, day: 1 }, hour: 0, minute: 0, second: 0 });
    let employees = seed_database(seeds);
    assert_eq!(employees.len(), 2);
    assert_eq!(employees[1].full_name, "Beto");
    assert_eq!(employees[1].country, Some("uy".to_string()));
    assert_eq!(
        employees[1].join_date,
        DateTime { date: Date { year: 2024, month: 2, day: 19 }, hour: 1, minute: 38, second: 55 }
    );
}

#[test]
fn redis_seed_records_become_employees() {
    let seed = RedisSeedEmployee {
        id: "1".to_string(),
        name: "Ana".to_string(),
        email: "ana@x".to_string(),
        date: "01/02/2024".to_string(),
        country: "ar".to_string(),
    };
    let e = redis_to_employee(&seed);
    assert_eq!(e.full_name, "Ana");
    assert_eq!(e.date, "01/02/2024");
    assert_eq!(date_to_timestamp(&seed.date).unwrap(), 1706745600);
    let err = date_to_timestamp("31/02/2024").unwrap_err();
    assert_eq!(err, chrono::NaiveDate::parse_from_str("31/02/2024", "%d/%m/%Y").unwrap_err());
    assert_eq!(date_to_timestamp("1/2/1970").unwrap(), 2678400);
    assert_eq!(date_to_timestamp("31/12/1969").unwrap(), -86400);
}

#[test]
fn midnight_timestamps_of_read_dates() {
    assert_eq!(midnight_timestamp(Date { year: 2024, month: 2, day: 1 }), 1706745600);
    assert_eq!(midnight_timestamp(Date { year: 1970, month: 1, day: 1 }), 0);
    assert!(date_to_timestamp("x").is_err());
}

#[test]
fn admin_and_project_rules() {
    assert!(is_onboarding_admin_given(0));
    assert!(!is_onboarding_admin_given(1));
    assert_eq!(check_new_project(0), Ok(()));
    assert_eq!(check_new_project(2), Err("Project already exists".to_string()));
}

#[test]
fn project_command_is_parsed() {
    let request = parse_project_command("*Nuevo*  _proyecto_ <@U42|pepe> ~grande~ ");
    assert_eq!(request.name, "Nuevo proyecto grande");
    assert_eq!(request.admin_id, "U42");
    let request = parse_project_command("<@U1> Solo <@U2>");
    assert_eq!(request.name, "Solo");
    assert_eq!(request.admin_id, "U2");
    let request = parse_project_command("");
    assert_eq!(request.name, "");
    assert_eq!(request.admin_id, "");
}

#[test]
fn project_steps() {
    match nuevo_proyecto_step(false, "x") {
        ProjectStep::Reply(m) => assert_eq!(m, "No tenés permisos de administrador para realizar esta acción."),
        _ => panic!("expected a reply"),
    }
    match nuevo_proyecto_step(true, "Mi proyecto <@U7>") {
        ProjectStep::Create(p) => {
            assert_eq!(p.name, "Mi proyecto");
            assert_eq!(p.admin_id, "U7");
        },
        _ => panic!("expected a project"),
    }
    assert_eq!(nuevo_proyecto_reply(Ok(())), "Proyecto creado correctamente");
    assert_eq!(nuevo_proyecto_reply(Err("Project already exists".to_string())), "Project already exists");
}

#[test]
fn interval_error_replies() {
    assert_eq!(
        interval_error_reply(ParseDateStrError::Date("hoy".to_string()), "hoy"),
        "Fecha invalida: hoy. Escribí /ayuda para ver opciones de formato."
    );
    assert_eq!(
        interval_error_reply(ParseDateStrError::DatePart("13".to_string()), "13/2024"),
        "El fragmento de fecha: 13 de 13/2024 es inválido. Escribí /ayuda para ver opciones de formato."
    );
    assert_eq!(interval_error_reply(ParseDateStrError::Interval("a b c".to_string()), "a b c"), "El intervalo a b c es");
    assert_eq!(
        interval_error_reply(ParseDateStrError::NoDate, ""),
        "No se recibió fecha. Escribí /ayuda para ver opciones de formato."
    );
}

#[test]
fn nuevos_steps_and_replies() {
    match nuevos_command_step("01/02/2024 29/02/2024") {
        NuevosStep::Lookup { from, to } => {
            assert_eq!(from, DateTime { date: Date { year: 2024, month: 2, day: 1 }, hour: 0, minute: 0, second: 0 });
            assert_eq!(to, DateTime { date: Date { year: 2024, month: 2, day: 29 }, hour: 23, minute: 59, second: 59 });
            let employees = vec![Employee {
                id: "ABC123".to_string(),
                email: "x".to_string(),
                full_name: "X".to_string(),
                country: None,
                join_date: DateTime { date: Date { year: 2024, month: 2, day: 16 }, hour: 0, minute: 0, second: 0 },
            }];
            assert_eq!(
                nuevos_command_reply(from, to, employees),
                "Los que entraron desde el 01/02/2024 hasta el 29/02/2024 son: \nFebrero 2024:\n- <@ABC123>"
            );
        },
        _ => panic!("expected a lookup"),
    }
    match nuevos_command_step("") {
        NuevosStep::Reply(m) => assert_eq!(m, "No se recibió fecha. Escribí /ayuda para ver opciones de formato."),
        _ => panic!("expected a reply"),
    }
    assert!(matches!(nuevos_command_step("13/2024"), NuevosStep::Unreadable));
    assert_eq!(
        slash_command_reply(1706745600, 1709251199, vec![(1708048800, "ABC123".to_string())]),
        "Los que entraron desde el 01/02/2024 hasta el 29/02/2024 son: \nFebrero 2024:\n- <@ABC123>"
    );
    assert_eq!(
        slash_command_lookup_reply(1706745600, 1709251199, Ok(vec![(1708048800, "ABC123".to_string())])),
        "Los que entraron desde el 01/02/2024 hasta el 29/02/2024 son: \nFebrero 2024:\n- <@ABC123>"
    );
    assert_eq!(slash_command_lookup_reply(0, 1, Err("down".to_string())), "Error desconocido");
    assert!(joins_all_in_range(&vec![(0, "a".to_string()), (8210266876799, "b".to_string())]));
    assert!(!joins_all_in_range(&vec![(0, "a".to_string()), (8210266876800, "b".to_string())]));
    assert!(in_timestamp_range(-8334601228800) && !in_timestamp_range(-8334601228801));
}

#[test]
fn env_vars_are_checked_in_order() {
    let names = env_var_names();
    assert_eq!(names.len(), 8);
    assert_eq!(names[0], "APP_ADDRESS");
    assert_eq!(names[7], "REDIS_URI_SCHEME");
    assert_eq!(first_unset_env_var(&vec![true, false, false]), Some(1));
    assert_eq!(first_unset_env_var(&vec![true, true]), None);
}
