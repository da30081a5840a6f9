use rusty_golf::json::JsonValue;
use rusty_golf::prefill::{prefill_event, prefill_key};

fn s(x: &str) -> JsonValue {
    JsonValue::String(x.to_string())
}

fn n(x: i64) -> JsonValue {
    JsonValue::Number(Some(x))
}

fn float() -> JsonValue {
    JsonValue::Number(None)
}

fn arr(items: Vec<JsonValue>) -> JsonValue {
    JsonValue::Array(items)
}

fn obj(pairs: Vec<(&str, JsonValue)>) -> JsonValue {
    JsonValue::Object(pairs.into_iter().map(|(k, v)| (k.to_string(), v)).collect())
}

fn sample_datum() -> JsonValue {
    obj(vec![
        ("event", n(401580355)),
        ("year", n(2024)),
        ("name", s("PGA Championship")),
        ("score_view_step_factor", float()),
        (
            "data_to_fill_if_event_and_year_missing",
            arr(vec![obj(vec![
                ("bettors", arr(vec![s("Player1"), s("Player2")])),
                (
                    "golfers",
                    arr(vec![
                        obj(vec![("name", s("Scottie Scheffler")), ("espn_id", n(9478))]),
                        obj(vec![("name", s("Rory McIlroy")), ("espn_id", n(3470))]),
                    ]),
                ),
                (
                    "event_user_player",
                    arr(vec![
                        obj(vec![("bettor", s("Player1")), ("golfer_espn_id", n(9478))]),
                        obj(vec![
                            ("bettor", s("Player2")),
                            ("golfer_espn_id", n(3470)),
                            ("score_view_step_factor", float()),
                        ]),
                    ]),
                ),
            ])]),
        ),
    ])
}

#[test]
fn events_file_key_is_event_and_year() {
    assert_eq!(prefill_key(&sample_datum()), Some((401580355, 2024)));
    assert_eq!(prefill_key(&obj(vec![("event", n(1))])), None);
    assert_eq!(prefill_key(&obj(vec![("event", s("1")), ("year", n(2024))])), None);
    assert_eq!(prefill_key(&arr(vec![])), None);
}

#[test]
fn events_file_datum_is_read_in_order() {
    let event = prefill_event(&sample_datum()).unwrap();
    assert_eq!(event.name, "PGA Championship");
    assert_eq!(event.espn_id, 401580355);
    assert_eq!(event.year, 2024);
    assert_eq!(event.groups.len(), 1);
    let group = &event.groups[0];
    assert_eq!(group.bettors, vec!["Player1".to_string(), "Player2".to_string()]);
    assert_eq!(group.golfers.len(), 2);
    assert_eq!(group.golfers[0].name, "Scottie Scheffler");
    assert_eq!(group.golfers[0].espn_id, 9478);
    assert_eq!(group.golfers[1].name, "Rory McIlroy");
    assert_eq!(group.golfers[1].espn_id, 3470);
    assert_eq!(group.picks.len(), 2);
    assert_eq!(group.picks[0].bettor, "Player1");
    assert_eq!(group.picks[0].golfer_espn_id, 9478);
    assert!(!group.picks[0].has_step_factor);
    assert_eq!(group.picks[1].bettor, "Player2");
    assert_eq!(group.picks[1].golfer_espn_id, 3470);
    assert!(group.picks[1].has_step_factor);
}

#[test]
fn events_file_refuses_malformed_datum() {
    // no step factor for the event
    let missing_factor = obj(vec![
        ("event", n(1)),
        ("year", n(2024)),
        ("name", s("Open")),
        ("data_to_fill_if_event_and_year_missing", arr(vec![])),
    ]);
    assert!(prefill_event(&missing_factor).is_none());
    // a bettor that is not a name
    let bad_bettor = obj(vec![
        ("event", n(1)),
        ("year", n(2024)),
        ("name", s("Open")),
        ("score_view_step_factor", n(3)),
        (
            "data_to_fill_if_event_and_year_missing",
            arr(vec![obj(vec![
                ("bettors", arr(vec![n(7)])),
                ("golfers", arr(vec![])),
                ("event_user_player", arr(vec![])),
            ])]),
        ),
    ]);
    assert!(prefill_event(&bad_bettor).is_none());
    // a pick whose step factor is not a number
    let bad_pick = obj(vec![
        ("event", n(1)),
        ("year", n(2024)),
        ("name", s("Open")),
        ("score_view_step_factor", n(3)),
        (
            "data_to_fill_if_event_and_year_missing",
            arr(vec![obj(vec![
                ("bettors", arr(vec![])),
                ("golfers", arr(vec![])),
                (
                    "event_user_player",
                    arr(vec![obj(vec![
                        ("bettor", s("Player1")),
                        ("golfer_espn_id", n(9478)),
                        ("score_view_step_factor", s("high")),
                    ])]),
                ),
            ])]),
        ),
    ]);
    assert!(prefill_event(&bad_pick).is_none());
    // an empty data to fill is accepted
    let empty = obj(vec![
        ("event", n(1)),
        ("year", n(2024)),
        ("name", s("Open")),
        ("score_view_step_factor", n(3)),
        ("data_to_fill_if_event_and_year_missing", arr(vec![])),
    ]);
    let event = prefill_event(&empty).unwrap();
    assert_eq!(event.groups.len(), 0);
}
