use rusty_golf::config::{
    check_json_file, check_json_format, pick_insert_query, combine_scripts, secret_password, startup_script_files, validate_db_args,
    validate_json_format, PasswordSource,
};
use rusty_golf::db::DatabaseType;
use rusty_golf::json::JsonValue;

fn s(x: &str) -> JsonValue {
    JsonValue::String(x.to_string())
}

fn n(x: i64) -> JsonValue {
    JsonValue::Number(Some(x))
}

fn obj(pairs: Vec<(&str, JsonValue)>) -> JsonValue {
    JsonValue::Object(pairs.into_iter().map(|(k, v)| (k.to_string(), v)).collect())
}

fn arr(v: Vec<JsonValue>) -> JsonValue {
    JsonValue::Array(v)
}

fn fill(bettors: Vec<JsonValue>, golfers: Vec<JsonValue>, picks: Vec<JsonValue>) -> JsonValue {
    obj(vec![("bettors", arr(bettors)), ("event_user_player", arr(picks)), ("golfers", arr(golfers))])
}

fn event(fills: Vec<JsonValue>) -> JsonValue {
    obj(vec![
        ("data_to_fill_if_event_and_year_missing", arr(fills)),
        ("event", n(401580351)),
        ("name", s("The Masters")),
        ("score_view_step_factor", JsonValue::Number(None)),
        ("year", n(2024)),
    ])
}

fn good_fill() -> JsonValue {
    fill(
        vec![s("Ann"), s("Bob")],
        vec![obj(vec![("espn_id", n(9478)), ("name", s("Scottie Scheffler"))])],
        vec![obj(vec![("bettor", s("Ann")), ("golfer_espn_id", n(9478))])],
    )
}

fn check(v: &JsonValue) -> Result<(), String> {
    validate_json_format(v)
}

#[test]
fn a_well_formed_file_passes() {
    assert_eq!(check(&arr(vec![event(vec![good_fill()])])), Ok(()));
    assert_eq!(check(&arr(vec![])), Ok(()));
}

#[test]
fn top_level_must_be_an_array() {
    assert_eq!(check(&obj(vec![])), Err("The json file is not in the correct format.".to_string()));
}

#[test]
fn unexpected_event_key_fails() {
    let mut e = event(vec![good_fill()]);
    if let JsonValue::Object(m) = &mut e {
        m.push(("zzz".to_string(), n(1)));
    }
    assert_eq!(
        check(&arr(vec![e])),
        Err("The json file is not in the correct format. Expected keys: [\"event\", \"year\", \"name\", \"data_to_fill_if_event_and_year_missing\", \"score_view_step_factor\"]".to_string())
    );
}

#[test]
fn event_value_types_are_checked() {
    let e = obj(vec![
        ("data_to_fill_if_event_and_year_missing", arr(vec![])),
        ("event", s("x")),
    ]);
    assert_eq!(
        check(&arr(vec![e])),
        Err("The json key event is not in the correct format. Expected a number.".to_string())
    );
    let e = obj(vec![
        ("data_to_fill_if_event_and_year_missing", arr(vec![])),
        ("event", n(1)),
        ("name", s("n")),
        ("score_view_step_factor", n(1)),
    ]);
    assert_eq!(
        check(&arr(vec![e])),
        Err("The json key year is not in the correct format. Expected a number.".to_string())
    );
    let e = obj(vec![
        ("data_to_fill_if_event_and_year_missing", arr(vec![])),
        ("event", n(1)),
        ("year", n(1)),
    ]);
    assert_eq!(
        check(&arr(vec![e])),
        Err("The json key name is not in the correct format. Expected a string.".to_string())
    );
    let e = obj(vec![
        ("data_to_fill_if_event_and_year_missing", arr(vec![])),
        ("event", n(1)),
        ("name", s("n")),
        ("year", n(1)),
    ]);
    assert_eq!(
        check(&arr(vec![e])),
        Err("The json key score_view_step_factor is not in the correct format. Expected a number.".to_string())
    );
}

#[test]
fn fill_entries_are_checked() {
    let bad_key = obj(vec![("bettors", arr(vec![])), ("other", arr(vec![]))]);
    assert_eq!(
        check(&arr(vec![event(vec![bad_key])])),
        Err("The json key data_to_fill_if_event_and_year_missing is not in the correct format. Expected keys: [\"bettors\", \"golfers\", \"event_user_player\"]".to_string())
    );
    let bad_bettor = fill(vec![n(1)], vec![], vec![]);
    assert_eq!(
        check(&arr(vec![event(vec![bad_bettor])])),
        Err("The json key bettors is not in the correct format. Expected strings.".to_string())
    );
    let golfer_not_object = fill(vec![], vec![s("x")], vec![]);
    assert_eq!(
        check(&arr(vec![event(vec![golfer_not_object])])),
        Err("The json key golfers is not in the correct format. Expected objects.".to_string())
    );
    let golfer_without_id = fill(vec![], vec![obj(vec![("name", s("x"))])], vec![]);
    assert_eq!(
        check(&arr(vec![event(vec![golfer_without_id])])),
        Err("The json key golfers is not in the correct format. Expected objects with keys name and espn_id.".to_string())
    );
    let pick_not_object = fill(vec![], vec![], vec![n(3)]);
    assert_eq!(
        check(&arr(vec![event(vec![pick_not_object])])),
        Err("The json key event_user_player is not in the correct format. Expected objects.".to_string())
    );
    let pick_without_bettor = fill(vec![], vec![], vec![obj(vec![("golfer_espn_id", n(3))])]);
    assert_eq!(
        check(&arr(vec![event(vec![pick_without_bettor])])),
        Err("The json key event_user_player is not in the correct format. Expected objects with keys bettor and golfer_espn_id.".to_string())
    );
}

#[test]
fn bettors_are_checked_before_golfers() {
    let both_bad = fill(vec![n(1)], vec![s("x")], vec![]);
    assert_eq!(
        check(&arr(vec![event(vec![good_fill(), both_bad])])),
        Err("The json key bettors is not in the correct format. Expected strings.".to_string())
    );
}

#[test]
fn postgres_arguments_are_required() {
    let pg = DatabaseType::Postgres;
    assert_eq!(validate_db_args(DatabaseType::Sqlite, None, None, None, None), Ok(PasswordSource::Given));
    assert_eq!(
        validate_db_args(pg, None, Some("h"), Some(1), Some("p")),
        Err("Postgres user is required".to_string())
    );
    assert_eq!(
        validate_db_args(pg, Some("u"), Some(""), Some(1), Some("p")),
        Err("Postgres host is required".to_string())
    );
    assert_eq!(
        validate_db_args(pg, Some("u"), Some("h"), None, Some("p")),
        Err("Postgres port is required".to_string())
    );
    assert_eq!(
        validate_db_args(pg, Some("u"), Some("h"), Some(1), None),
        Err("Postgres password is required".to_string())
    );
    assert_eq!(validate_db_args(pg, Some("u"), Some("h"), Some(1), Some("p")), Ok(PasswordSource::Given));
    assert_eq!(
        validate_db_args(pg, Some("u"), Some("h"), Some(1), Some("/run/secrets/db_password")),
        Ok(PasswordSource::SecretFile)
    );
}

#[test]
fn secret_password_is_trimmed() {
    assert_eq!(secret_password(Some("  s3cret\n")), "s3cret");
    assert_eq!(secret_password(None), "tempPasswordWillbeReplacedIn!AdminPanel");
}

#[test]
fn startup_scripts_split_on_semicolons() {
    assert_eq!(startup_script_files("a.sql; b.sql;;  ;c.sql "), vec!["a.sql", "b.sql", "c.sql"]);
    assert_eq!(startup_script_files(""), Vec::<String>::new());
    assert_eq!(startup_script_files("one.sql"), vec!["one.sql"]);
}

#[test]
fn startup_script_contents_are_joined() {
    assert_eq!(
        combine_scripts(Some("a;b"), &["select 1;".to_string(), "select 2;".to_string()]),
        "select 1;\nselect 2;\n"
    );
    assert_eq!(combine_scripts(Some("a;b"), &[]), "a;b");
    assert_eq!(combine_scripts(None, &[]), "");
}

#[test]
fn missing_parts_break_the_check() {
    assert_eq!(check_json_format(&arr(vec![n(1)])), Err(None));
    let no_fill = obj(vec![
        ("event", n(1)),
        ("name", s("n")),
        ("score_view_step_factor", n(1)),
        ("year", n(1)),
    ]);
    assert_eq!(check_json_format(&arr(vec![no_fill])), Err(None));
    let no_golfers = obj(vec![("bettors", arr(vec![])), ("event_user_player", arr(vec![]))]);
    assert_eq!(check_json_format(&arr(vec![event(vec![no_golfers])])), Err(None));
    assert_eq!(
        check_json_format(&obj(vec![])),
        Err(Some("The json file is not in the correct format.".to_string()))
    );
}

#[test]
fn pick_insert_statements() {
    assert_eq!(
        pick_insert_query(true),
        "INSERT INTO event_user_player (event_id, user_id, golfer_id, score_view_step_factor) select (select event_id from event where espn_id = ?1),(select user_id from bettor where name = ?2),(select golfer_id from golfer where espn_id = ?3), ?4;"
    );
    assert!(pick_insert_query(false).ends_with(", NULL;"));
}

#[test]
fn events_file_text_is_parsed_then_checked() {
    let good = r#"[{"event": 401580355, "year": 2024, "name": "PGA Championship",
        "score_view_step_factor": 3.0,
        "data_to_fill_if_event_and_year_missing": [{
            "bettors": ["Player1"],
            "golfers": [{"name": "Scottie Scheffler", "espn_id": 9478}],
            "event_user_player": [{"bettor": "Player1", "golfer_espn_id": 9478}]}]}]"#;
    match check_json_file(good) {
        Ok(JsonValue::Array(items)) => assert_eq!(items.len(), 1),
        other => panic!("unexpected {other:?}"),
    }
    match check_json_file("{not json") {
        Err(Some(m)) => assert_eq!(m, "The json file is not valid json."),
        other => panic!("unexpected {other:?}"),
    }
    match check_json_file("{}") {
        Err(Some(m)) => assert_eq!(m, "The json file is not in the correct format."),
        other => panic!("unexpected {other:?}"),
    }
    assert!(matches!(check_json_file("[1]"), Err(None)));
}
