use rusty_golf::admin::{
    deserialize_int_or_string, get_check_type_data, missing_objects, missing_objects_json,
    next_times_run, parse_into_times_run, resolve_rows, times_run_from_json, setup_summary, AdminFlags, AdminPage,
    AdminRouter, AdminView, AlphaNum14, Bettor, CheckType, IntOrStringError, MissingObjectsError,
    Player, RowData, RowLookupError, SetupSummary, TimesRun,
};
use rusty_golf::db::{CustomDbRow, RowValues};
use rusty_golf::json::JsonValue;

fn s(x: &str) -> JsonValue {
    JsonValue::String(x.to_string())
}

fn n(x: i64) -> JsonValue {
    JsonValue::Number(Some(x))
}

fn obj(pairs: Vec<(&str, JsonValue)>) -> JsonValue {
    JsonValue::Object(pairs.into_iter().map(|(k, v)| (k.to_string(), v)).collect())
}

fn row(cols: Vec<(&str, RowValues)>) -> CustomDbRow {
    CustomDbRow {
        column_names: cols.iter().map(|(c, _)| c.to_string()).collect(),
        rows: cols.into_iter().map(|(_, v)| v).collect(),
    }
}

fn no_flags() -> AdminFlags {
    AdminFlags {
        has_data: false,
        has_missing_tables: false,
        from_landing_tables: false,
        from_landing_constraints: false,
    }
}

#[test]
fn test_data_lists_two_of_each() {
    let p = Player::test_data();
    assert_eq!(p.len(), 2);
    assert_eq!((p[0].id, p[0].name.as_str()), (1, "Player1"));
    assert_eq!((p[1].id, p[1].name.as_str()), (2, "Player2"));
    let b = Bettor::test_data();
    assert_eq!((b[0].uid, b[0].name.as_str()), (1, "Bettor1"));
    assert_eq!((b[1].uid, b[1].name.as_str()), (2, "Bettor2"));
}

#[test]
fn alphanum14_accepts_exactly_fourteen_letters_and_digits() {
    let t = AlphaNum14::new("abcDEF01234567").expect("valid token");
    assert_eq!(t.value(), "abcDEF01234567");
    assert!(AlphaNum14::new("abcDEF0123456").is_none());
    assert!(AlphaNum14::new("abcDEF012345678").is_none());
    assert!(AlphaNum14::new("abcDEF012345_7").is_none());
    assert!(AlphaNum14::new("abcdéf01234567").is_none());
    assert!(AlphaNum14::new("abcDEF01234567\n").is_none());
}

#[test]
fn alphanum14_parse_and_default() {
    assert_eq!(AlphaNum14::parse("ABCDEFGHIJKLMN").expect("valid").value(), "ABCDEFGHIJKLMN");
    match AlphaNum14::parse("short") {
        Err(e) => assert_eq!(e, "Invalid input"),
        Ok(_) => panic!("too short"),
    }
    assert_eq!(AlphaNum14::default().value(), "default");
}

#[test]
fn admin_page_numbers_round_trip() {
    for p in [AdminPage::Landing, AdminPage::TablesAndConstraints, AdminPage::ZeroX] {
        assert_eq!(AdminPage::parse(p.get_page_number()), p);
    }
    assert_eq!(AdminPage::parse("00"), AdminPage::Landing);
    assert_eq!(AdminPage::parse("01"), AdminPage::TablesAndConstraints);
    assert_eq!(AdminPage::parse("0x"), AdminPage::ZeroX);
    assert_eq!(AdminPage::parse("zz"), AdminPage::Landing);
    assert_eq!(AdminPage::parse(""), AdminPage::Landing);
}

#[test]
fn check_type_texts() {
    let t = get_check_type_data(&CheckType::Table);
    assert_eq!(t.missing_item_id, "admin01_missing_tables");
    assert_eq!(t.all_items_setup_p, "All tables are setup.");
    assert_eq!(t.all_items_not_setup_p, "Not all tables are setup.");
    assert_eq!(t.create_missing_obj_id, "create-missing-tables");
    assert_eq!(t.create_missing_obj_p, "Create missing tables");
    assert_eq!(t.create_obj_results_id, "create-table-results");
    let c = get_check_type_data(&CheckType::Constraint);
    assert_eq!(c.missing_item_id, "admin01_missing_constraints");
    assert_eq!(c.all_items_setup_p, "All constraints are setup.");
    assert_eq!(c.all_items_not_setup_p, "Not all constraints are setup.");
    assert_eq!(c.create_missing_obj_id, "create-missing-constraints");
    assert_eq!(c.create_missing_obj_p, "Create missing constraints");
    assert_eq!(c.create_obj_results_id, "create-constraint-results");
}

#[test]
fn router_checks_the_token_first() {
    let r = AdminRouter::new();
    let token = "abcDEF01234567";
    assert_eq!(r.route(" abcDEF01234567 ", "01", Some(token), no_flags()), AdminView::TablesDefault);
    assert_eq!(r.route("wrongwrongwron", "01", Some(token), no_flags()), AdminView::Unauthorized);
    assert_eq!(r.route("bad", "00", Some("default"), no_flags()), AdminView::Landing);
    assert_eq!(r.route("bad", "00", Some(token), no_flags()), AdminView::Unauthorized);
    assert_eq!(r.route("anything", "00", None, no_flags()), AdminView::Landing);
}

#[test]
fn router_picks_the_page_view() {
    let r = AdminRouter::new();
    let mut f = no_flags();
    assert_eq!(r.route("", " 0x ", None, f), AdminView::ZeroXDefault);
    f.has_data = true;
    assert_eq!(r.route("", "0x", None, f), AdminView::ReceivedData);
    let mut f = no_flags();
    f.from_landing_constraints = true;
    assert_eq!(r.route("", "01", None, f), AdminView::CheckConstraints);
    f.from_landing_tables = true;
    assert_eq!(r.route("", "01", None, f), AdminView::CheckTables);
    f.has_missing_tables = true;
    assert_eq!(r.route("", "01", None, f), AdminView::CreateMissingTables);
    assert_eq!(r.route("", "nope", None, f), AdminView::Landing);
}

#[test]
fn int_or_string_values() {
    assert_eq!(deserialize_int_or_string(&n(7)), Ok(7));
    assert_eq!(deserialize_int_or_string(&n(4294967297)), Ok(1));
    assert_eq!(deserialize_int_or_string(&s("-12")), Ok(-12));
    assert_eq!(deserialize_int_or_string(&s("x")), Err(IntOrStringError::InvalidText));
    assert_eq!(deserialize_int_or_string(&JsonValue::Number(None)), Err(IntOrStringError::InvalidNumber));
    assert_eq!(deserialize_int_or_string(&JsonValue::Bool(true)), Err(IntOrStringError::Neither));
}

#[test]
fn times_run_from_record_or_list() {
    let one = times_run_from_json(&obj(vec![("times_run", n(2))])).expect("object");
    assert_eq!(one.times_run, 2);
    let text = times_run_from_json(&obj(vec![("times_run", s("5"))])).expect("string");
    assert_eq!(text.times_run, 5);
    let list = times_run_from_json(&JsonValue::Array(vec![
        obj(vec![("times_run", n(3))]),
        obj(vec![("times_run", n(9))]),
    ]))
    .expect("list");
    assert_eq!(list.times_run, 3);
    let single = times_run_from_json(&JsonValue::Array(vec![n(4)])).expect("one-element array");
    assert_eq!(single.times_run, 4);
    assert!(times_run_from_json(&JsonValue::Array(vec![])).is_none());
    assert!(times_run_from_json(&obj(vec![("other", n(1))])).is_none());
    assert!(times_run_from_json(&JsonValue::Array(vec![
        obj(vec![("times_run", n(3))]),
        s("junk"),
    ]))
    .is_none());
    assert_eq!(next_times_run(&TimesRun { times_run: 3 }), 4);
}

#[test]
fn rows_resolve_to_players_and_bettors() {
    let rows = vec![
        RowData { row_entry: 0, player_id: 2, bettor_id: 1, round: 3 },
        RowData { row_entry: 1, player_id: 1, bettor_id: 2, round: 1 },
    ];
    let out = resolve_rows(&rows, &Player::test_data(), &Bettor::test_data()).expect("known ids");
    assert_eq!(out.len(), 2);
    assert_eq!(out[0].player.name, "Player2");
    assert_eq!(out[0].bettor.name, "Bettor1");
    assert_eq!(out[0].round, 3);
    assert_eq!(out[1].row_entry, 1);
    assert_eq!(out[1].player.id, 1);
}

#[test]
fn unknown_ids_are_reported() {
    let players = Player::test_data();
    let bettors = Bettor::test_data();
    let bad_player = vec![RowData { row_entry: 0, player_id: 9, bettor_id: 8, round: 1 }];
    let e = resolve_rows(&bad_player, &players, &bettors).err().expect("error");
    assert_eq!(e, RowLookupError::InvalidPlayer(9));
    assert_eq!(e.message(), "Invalid player ID: 9");
    let bad_bettor = vec![
        RowData { row_entry: 0, player_id: 1, bettor_id: 1, round: 1 },
        RowData { row_entry: 1, player_id: 1, bettor_id: -4, round: 1 },
    ];
    let e = resolve_rows(&bad_bettor, &players, &bettors).err().expect("error");
    assert_eq!(e, RowLookupError::InvalidBettor(-4));
    assert_eq!(e.message(), "Invalid bettor ID: -4");
}

#[test]
fn missing_objects_from_setup_rows() {
    let rows = vec![
        row(vec![("ex", RowValues::Bool(true)), ("tbl", RowValues::Text("event".into()))]),
        row(vec![("ex", RowValues::Bool(false)), ("tbl", RowValues::Text("golfer".into()))]),
        row(vec![("tbl", RowValues::Text("bettor".into()))]),
    ];
    assert_eq!(missing_objects(&rows), Ok(vec!["golfer".to_string(), "bettor".to_string()]));
    let no_tbl = vec![row(vec![("ex", RowValues::Bool(false))])];
    assert_eq!(missing_objects(&no_tbl), Err(MissingObjectsError::NoTbl));
    let not_text = vec![row(vec![("tbl", RowValues::Int(3))])];
    assert_eq!(missing_objects(&not_text), Err(MissingObjectsError::NotAString));
}

#[test]
fn missing_objects_as_json() {
    let v = missing_objects_json(&["golfer".to_string()]);
    match v {
        JsonValue::Array(items) => {
            assert_eq!(items.len(), 1);
            assert_eq!(items[0].get("missing_object").and_then(|m| m.as_str()), Some("golfer"));
        }
        _ => panic!("an array"),
    }
    assert!(matches!(missing_objects_json(&[]), JsonValue::Array(v) if v.is_empty()));
}

#[test]
fn setup_summary_choices() {
    assert_eq!(setup_summary(0, true), SetupSummary::AllSetUp);
    assert_eq!(setup_summary(2, true), SetupSummary::CreateButton);
    assert_eq!(setup_summary(2, false), SetupSummary::NotAllSetUp);
}

#[test]
fn times_run_from_submitted_text() {
    assert_eq!(parse_into_times_run("{\"times_run\": 2}").map(|t| t.times_run), Some(2));
    assert_eq!(parse_into_times_run("[{\"times_run\": \"7\"}]").map(|t| t.times_run), Some(7));
    assert!(parse_into_times_run("[]").is_none());
    assert!(parse_into_times_run("not json").is_none());
    assert!(parse_into_times_run("").is_none());
}
