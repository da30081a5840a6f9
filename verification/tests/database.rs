use rusty_golf::admin::{CheckType, MissingDbObjects};
use rusty_golf::db::{
    check_db_config, column_kind, connection_string, existing_objects, golfer_from_row, last_refresh_of,
    object_states, setup_results, statements_for_missing, table_check_result, constraint_check_result, title_from_rows,
    stored_scores_chosen, use_stored_scores, ColumnKind, CustomDbRow, DatabaseResult, DatabaseSetupState,
    DatabaseType, DbConfig, QueryAction, QueryEvent, QueryRun, ResultSet, RowValues,
};

fn row(cols: Vec<(&str, RowValues)>) -> CustomDbRow {
    CustomDbRow {
        column_names: cols.iter().map(|(c, _)| c.to_string()).collect(),
        rows: cols.into_iter().map(|(_, v)| v).collect(),
    }
}

fn text(s: &str) -> RowValues {
    RowValues::Text(s.to_string())
}

#[test]
fn row_values_accessors() {
    assert_eq!(RowValues::Int(4).as_int(), Some(&4));
    assert_eq!(text("x").as_int(), None);
    assert_eq!(text("x").as_text(), Some("x"));
    assert_eq!(RowValues::Bool(true).as_text(), None);
}

#[test]
fn row_get_finds_the_first_column() {
    let r = row(vec![("a", RowValues::Int(1)), ("b", text("two")), ("a", RowValues::Int(3))]);
    assert_eq!(r.get("a").and_then(|v| v.as_int()), Some(&1));
    assert_eq!(r.get("b").and_then(|v| v.as_text()), Some("two"));
    assert!(r.get("c").is_none());
    let short = CustomDbRow { column_names: vec!["a".into(), "b".into()], rows: vec![RowValues::Int(1)] };
    assert!(short.get("b").is_none());
}

#[test]
fn database_result_default_is_no_connection() {
    let d: DatabaseResult<String> = DatabaseResult::default();
    assert_eq!(d.db_last_exec_state, DatabaseSetupState::NoConnection);
    assert!(d.error_message.is_none());
    assert_eq!(d.db_object_name, "");
    assert_eq!(d.return_result, "");
}

#[test]
fn column_kinds_by_database() {
    assert_eq!(column_kind(DatabaseType::Postgres, "INT8"), Some(ColumnKind::Int));
    assert_eq!(column_kind(DatabaseType::Postgres, "BOOL"), Some(ColumnKind::Bool));
    assert_eq!(column_kind(DatabaseType::Postgres, "TIMESTAMP"), Some(ColumnKind::Timestamp));
    assert_eq!(column_kind(DatabaseType::Postgres, "FLOAT8"), None);
    assert_eq!(column_kind(DatabaseType::Sqlite, "INTEGER"), Some(ColumnKind::Int));
    assert_eq!(column_kind(DatabaseType::Sqlite, "INT8"), None);
    assert_eq!(column_kind(DatabaseType::Sqlite, "BOOL"), None);
    assert_eq!(column_kind(DatabaseType::Sqlite, "TEXT"), Some(ColumnKind::Text));
}

#[test]
fn existing_and_missing_objects() {
    let rows = vec![
        row(vec![("exists", RowValues::Bool(true)), ("tbl", text("event"))]),
        row(vec![("exists", text("t")), ("tbl", text("golfer"))]),
        row(vec![("exists", text("f")), ("tbl", text("bettor"))]),
        row(vec![("tbl", text("eup_statistic"))]),
    ];
    let existing = existing_objects(&rows);
    assert_eq!(existing, vec!["event".to_string(), "golfer".to_string()]);
    let states = object_states(&["event", "bettor", "golfer"], &existing);
    let got: Vec<(String, DatabaseSetupState)> =
        states.iter().map(|d| (d.db_object_name.clone(), d.db_last_exec_state)).collect();
    assert_eq!(
        got,
        vec![
            ("event".to_string(), DatabaseSetupState::QueryReturnedSuccessfully),
            ("bettor".to_string(), DatabaseSetupState::MissingRelations),
            ("golfer".to_string(), DatabaseSetupState::QueryReturnedSuccessfully),
        ]
    );
}

#[test]
fn setup_results_report_query_failures() {
    let failed = DatabaseResult::<Vec<ResultSet>> {
        db_last_exec_state: DatabaseSetupState::QueryError,
        return_result: vec![],
        error_message: Some("boom".to_string()),
        db_object_name: String::new(),
    };
    let r = setup_results(&failed, &["event"]);
    assert_eq!(r.len(), 1);
    assert_eq!(r[0].db_last_exec_state, DatabaseSetupState::QueryError);
    assert_eq!(r[0].error_message.as_deref(), Some("boom"));
    let ok = DatabaseResult::<Vec<ResultSet>> {
        db_last_exec_state: DatabaseSetupState::QueryReturnedSuccessfully,
        return_result: vec![ResultSet {
            results: vec![row(vec![("exists", RowValues::Bool(true)), ("tbl", text("event"))])],
        }],
        error_message: None,
        db_object_name: String::new(),
    };
    let r = setup_results(&ok, &["event", "golfer"]);
    assert_eq!(r[0].db_last_exec_state, DatabaseSetupState::QueryReturnedSuccessfully);
    assert_eq!(r[1].db_last_exec_state, DatabaseSetupState::MissingRelations);
    assert_eq!(r[1].db_object_name, "golfer");
}

#[test]
fn statements_for_missing_objects() {
    let ddl: &[(&'static str, &'static str, &'static str, &'static str)] = &[
        ("event", "CREATE event", "", ""),
        ("player", "CREATE player", "unq_name", "ALTER player name"),
        ("golfer", "CREATE golfer", "unq_espn_id", "ALTER golfer id"),
    ];
    let missing = vec![
        MissingDbObjects { missing_object: "golfer".to_string() },
        MissingDbObjects { missing_object: "event".to_string() },
        MissingDbObjects { missing_object: "unq_name".to_string() },
    ];
    assert_eq!(
        statements_for_missing(&missing, CheckType::Table, ddl),
        vec!["CREATE event", "CREATE golfer"]
    );
    assert_eq!(statements_for_missing(&missing, CheckType::Constraint, ddl), vec!["ALTER player name"]);
}

#[test]
fn title_is_the_first_event_name() {
    let rows = vec![
        row(vec![("other", text("x"))]),
        row(vec![("eventname", RowValues::Int(1))]),
        row(vec![("eventname", text("The Masters"))]),
        row(vec![("eventname", text("Later"))]),
    ];
    assert_eq!(title_from_rows(&rows), "The Masters");
    assert_eq!(title_from_rows(&[]), "");
}

#[test]
fn query_run_commits_after_every_query() {
    let mut run = QueryRun::new(2);
    assert_eq!(run.on_event(QueryEvent::Began), QueryAction::Run(0));
    let rs = ResultSet { results: vec![row(vec![("n", RowValues::Int(1))])] };
    assert_eq!(run.on_event(QueryEvent::Completed(rs)), QueryAction::Run(1));
    assert_eq!(run.on_event(QueryEvent::Completed(ResultSet { results: vec![] })), QueryAction::Commit);
    assert_eq!(run.result.db_last_exec_state, DatabaseSetupState::QueryReturnedSuccessfully);
    assert_eq!(run.result.return_result.len(), 2);
    assert_eq!(run.result.return_result[0].results.len(), 1);
    assert_eq!(run.on_event(QueryEvent::Failed("late".into())), QueryAction::Finish);
    assert_eq!(run.result.db_last_exec_state, DatabaseSetupState::QueryReturnedSuccessfully);
}

#[test]
fn query_run_stops_at_the_first_failure() {
    let mut run = QueryRun::new(3);
    assert_eq!(run.on_event(QueryEvent::Began), QueryAction::Run(0));
    assert_eq!(run.on_event(QueryEvent::Completed(ResultSet { results: vec![] })), QueryAction::Run(1));
    assert_eq!(run.on_event(QueryEvent::Failed("syntax error".into())), QueryAction::Rollback);
    assert_eq!(run.result.db_last_exec_state, DatabaseSetupState::QueryError);
    assert_eq!(run.result.error_message.as_deref(), Some("syntax error"));
    assert_eq!(run.result.return_result.len(), 1);
    assert_eq!(run.on_event(QueryEvent::Began), QueryAction::Finish);
}

#[test]
fn query_run_without_transaction_or_queries() {
    let mut run = QueryRun::new(1);
    assert_eq!(run.on_event(QueryEvent::BeginFailed("refused".into())), QueryAction::Finish);
    assert_eq!(run.result.db_last_exec_state, DatabaseSetupState::QueryError);
    assert_eq!(run.result.error_message.as_deref(), Some("refused"));
    let mut empty = QueryRun::new(0);
    assert_eq!(empty.on_event(QueryEvent::Began), QueryAction::Commit);
    assert_eq!(empty.result.db_last_exec_state, DatabaseSetupState::QueryReturnedSuccessfully);
}

#[test]
fn golfer_rows_default_missing_columns() {
    let r = row(vec![
        ("grp", RowValues::Int(2)),
        ("golfername", text("Scottie Scheffler")),
        ("bettorname", text("Ann")),
        ("eup_id", RowValues::Int(17)),
    ]);
    let g = golfer_from_row(&r);
    assert_eq!(g.group, 2);
    assert_eq!(g.golfer_name, "Scottie Scheffler");
    assert_eq!(g.bettor_name, "Ann");
    assert_eq!(g.eup_id, 17);
    assert_eq!(g.espn_id, 0);
    assert_eq!(g.detailed_statistics.eup_id, 17);
    assert!(g.detailed_statistics.round_scores.is_empty());
}

#[test]
fn last_refresh_is_the_last_timestamp() {
    let rows = vec![
        row(vec![("ins_ts", RowValues::Timestamp(100, 5))]),
        row(vec![("ins_ts", RowValues::Timestamp(200, 0))]),
        row(vec![("ins_ts", text("no"))]),
    ];
    assert_eq!(last_refresh_of(&rows), Some((200, 0)));
    assert_eq!(last_refresh_of(&[]), None);
}

#[test]
fn stored_scores_are_used_once_old_enough() {
    let day = 86400;
    assert!(use_stored_scores(true, Some((0, 0)), (5 * day, 0), 5));
    assert!(!use_stored_scores(true, Some((0, 1)), (5 * day, 0), 5));
    assert!(use_stored_scores(true, Some((10, 0)), (0, 0), 0));
    assert!(!use_stored_scores(true, None, (0, 0), 0));
    assert!(!use_stored_scores(false, Some((0, 0)), (99 * day, 0), 0));
}

#[test]
fn table_checks_by_query_state() {
    let ok = table_check_result("event", DatabaseSetupState::QueryReturnedSuccessfully, None);
    assert_eq!(ok.return_result, "Table exists");
    assert_eq!(ok.db_object_name, "event");
    let missing = table_check_result("event", DatabaseSetupState::QueryError, Some("e".into()));
    assert_eq!(missing.return_result, "Table does not exist");
    assert_eq!(missing.db_last_exec_state, DatabaseSetupState::MissingRelations);
    assert_eq!(missing.error_message.as_deref(), Some("e"));
    let down = table_check_result("event", DatabaseSetupState::NoConnection, None);
    assert_eq!(down.return_result, "Can't connect to db");
}

#[test]
fn connection_strings() {
    let pg = DbConfig {
        dbname: Some("golf".into()),
        host: Some("localhost".into()),
        port: Some(5432),
        user: Some("postgres".into()),
        password: Some("pw".into()),
    };
    assert_eq!(connection_string(&pg, DatabaseType::Postgres), "postgres://postgres:pw@localhost:5432/golf");
    let lite = DbConfig { dbname: Some("file.db".into()), host: None, port: None, user: None, password: None };
    assert_eq!(connection_string(&lite, DatabaseType::Sqlite), "sqlite://file.db");
}

#[test]
fn database_configuration_requirements() {
    let full = || DbConfig {
        dbname: Some("golf".into()),
        host: Some("h".into()),
        port: Some(1),
        user: Some("u".into()),
        password: Some("p".into()),
    };
    assert_eq!(check_db_config(&full(), DatabaseType::Postgres), Ok(()));
    let mut c = full();
    c.dbname = None;
    assert_eq!(check_db_config(&c, DatabaseType::Sqlite), Err("dbname is required".to_string()));
    let c = DbConfig { dbname: Some("f.db".into()), host: None, port: None, user: None, password: None };
    assert_eq!(check_db_config(&c, DatabaseType::Sqlite), Ok(()));
    assert_eq!(check_db_config(&c, DatabaseType::Postgres), Err("host is required".to_string()));
    let mut c = full();
    c.port = None;
    c.user = None;
    assert_eq!(check_db_config(&c, DatabaseType::Postgres), Err("port is required".to_string()));
    let mut c = full();
    c.user = None;
    assert_eq!(check_db_config(&c, DatabaseType::Postgres), Err("user is required".to_string()));
    let mut c = full();
    c.password = None;
    assert_eq!(check_db_config(&c, DatabaseType::Postgres), Err("password is required".to_string()));
}

#[test]
fn constraint_check_reports() {
    let ok = DatabaseSetupState::QueryReturnedSuccessfully;
    let exists = constraint_check_result("golfer", ok, None, Some("1"));
    assert_eq!(exists.return_result, "Constraint exists");
    assert_eq!(exists.db_last_exec_state, DatabaseSetupState::QueryReturnedSuccessfully);
    assert_eq!(exists.db_object_name, "golfer");
    let absent = constraint_check_result("golfer", ok, None, Some("0"));
    assert_eq!(absent.return_result, "Constraint does not exist");
    assert_eq!(absent.db_last_exec_state, DatabaseSetupState::MissingRelations);
    let no_row = constraint_check_result("golfer", ok, None, None);
    assert_eq!(no_row.return_result, "");
    assert_eq!(no_row.db_last_exec_state, DatabaseSetupState::QueryReturnedSuccessfully);
    let failed = constraint_check_result("golfer", DatabaseSetupState::QueryError, Some("e".into()), None);
    assert_eq!(failed.return_result, "Table does not exist");
    assert_eq!(failed.db_last_exec_state, DatabaseSetupState::MissingRelations);
    assert_eq!(failed.error_message, Some("e".to_string()));
    let offline = constraint_check_result("golfer", DatabaseSetupState::NoConnection, None, None);
    assert_eq!(offline.return_result, "Can't connect to db");
}

#[test]
fn default_result_is_empty() {
    let d = DatabaseResult::<String>::default();
    assert_eq!(d.return_result, "");
    assert_eq!(d.db_last_exec_state, DatabaseSetupState::NoConnection);
    assert!(d.error_message.is_none());
    assert_eq!(d.db_object_name, "");
}

#[test]
fn stored_scores_age_counts_a_leap_second() {
    // stored during the leap second 23:59:60.5 of the first day, read at the start of the
    // sixth day: 3 whole days and 86399.5 seconds have passed
    let leap = Some((86_399, 1_500_000_000));
    assert!(use_stored_scores(true, leap, (432_000, 0), 3));
    assert!(!use_stored_scores(true, leap, (432_000, 0), 4));
}

#[test]
fn stored_scores_only_when_allowed_and_usable() {
    assert!(stored_scores_chosen(true, Some(true)));
    assert!(!stored_scores_chosen(true, Some(false)));
    assert!(!stored_scores_chosen(true, None));
    assert!(!stored_scores_chosen(false, Some(true)));
}
