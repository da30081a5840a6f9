use rusty_golf::espn::{
    combine_responses, espn_request_groups, merge_statistics_with_scores,
    process_json_to_statistics, process_line_scores, process_tee_time, record_response,
    response_from_text,
    scores_from_responses, statistic_from_response, tee_time_with_zone,
};
use rusty_golf::json::JsonValue;
use rusty_golf::score::{IntStat, PlayerJsonResponse, ScoreDisplay, Scores, Statistic};

fn s(x: &str) -> JsonValue {
    JsonValue::String(x.to_string())
}

fn n(x: i64) -> JsonValue {
    JsonValue::Number(Some(x))
}

fn obj(pairs: Vec<(&str, JsonValue)>) -> JsonValue {
    JsonValue::Object(pairs.into_iter().map(|(k, v)| (k.to_string(), v)).collect())
}

fn hole(par: i64, strokes: &str) -> JsonValue {
    obj(vec![("par", n(par)), ("displayValue", s(strokes))])
}

fn sample_response() -> JsonValue {
    obj(vec![(
        "rounds",
        JsonValue::Array(vec![
            obj(vec![
                ("displayValue", s("-1")),
                ("teeTime", s("2024-05-16T18:12Z")),
                ("linescores", JsonValue::Array(vec![hole(4, "3"), hole(3, "5")])),
            ]),
            obj(vec![
                ("displayValue", s("+2")),
                ("teeTime", s("not a time")),
                ("linescores", JsonValue::Array(vec![hole(5, "5")])),
            ]),
        ]),
    )])
}

fn empty_stat(eup: i64) -> Statistic {
    Statistic {
        eup_id: eup,
        rounds: vec![],
        round_scores: vec![],
        tee_times: vec![],
        holes_completed_by_round: vec![],
        line_scores: vec![],
        total_score: 0,
    }
}

fn pick(eup: i64, espn: i64, golfer: &str, bettor: &str, group: i64) -> Scores {
    Scores {
        eup_id: eup,
        espn_id: espn,
        golfer_name: golfer.to_string(),
        bettor_name: bettor.to_string(),
        detailed_statistics: empty_stat(eup),
        group,
    }
}

#[test]
fn line_scores_read_par_and_strokes() {
    let lines = vec![hole(4, "3"), hole(3, "+5"), obj(vec![])];
    let out = process_line_scores(&lines, 2);
    assert_eq!(out.len(), 3);
    assert_eq!((out[0].hole, out[0].par, out[0].score, out[0].round), (1, 4, 3, 2));
    assert_eq!(out[0].score_display, ScoreDisplay::Bogey);
    assert_eq!((out[1].hole, out[1].par, out[1].score), (2, 3, 5));
    assert_eq!(out[1].score_display, ScoreDisplay::Eagle);
    assert_eq!((out[2].hole, out[2].par, out[2].score), (3, 0, 0));
    assert_eq!(out[2].score_display, ScoreDisplay::Par);
}

#[test]
fn tee_time_is_shown_in_central_time() {
    assert_eq!(tee_time_with_zone("2024-05-16T18:12Z"), "2024-05-16T18:12Z+0000");
    assert_eq!(tee_time_with_zone("x"), "x");
    let t = process_tee_time("2024-05-16T18:12Z").expect("a readable tee time");
    assert_eq!(t.val, "5/16 1:12p");
    let t = process_tee_time("2024-05-16T03:05Z").expect("a readable tee time");
    assert_eq!(t.val, "5/15 10:05p");
}

#[test]
fn unreadable_tee_time_gives_none() {
    assert!(process_tee_time("not a time").is_none());
    assert!(process_tee_time("").is_none());
}

#[test]
fn statistic_from_one_answer() {
    let st = statistic_from_response(&sample_response(), 42);
    assert_eq!(st.eup_id, 42);
    let rounds: Vec<i32> = st.rounds.iter().map(|r| r.val).collect();
    assert_eq!(rounds, vec![0, 1]);
    let scores: Vec<i32> = st.round_scores.iter().map(|r| r.val).collect();
    assert_eq!(scores, vec![-1, 2]);
    assert_eq!(st.line_scores.len(), 3);
    assert_eq!(st.line_scores[2].round, 1);
    assert_eq!(st.line_scores[2].hole, 1);
    let holes: Vec<i32> = st.holes_completed_by_round.iter().map(|r| r.val).collect();
    assert_eq!(holes, vec![2, 3]);
    assert_eq!(st.tee_times.len(), 1);
    assert_eq!(st.tee_times[0].val, "5/16 1:12p");
    assert_eq!(st.total_score, 1);
}

#[test]
fn answer_without_rounds_gives_empty_statistic() {
    let st = statistic_from_response(&obj(vec![("other", n(1))]), 3);
    assert_eq!(st.eup_id, 3);
    assert!(st.rounds.is_empty());
    assert!(st.line_scores.is_empty());
    assert_eq!(st.total_score, 0);
}

#[test]
fn statistics_follow_the_answers() {
    let resp = PlayerJsonResponse {
        data: vec![sample_response(), obj(vec![])],
        eup_ids: vec![10, 11],
    };
    let stats = process_json_to_statistics(&resp).expect("statistics");
    assert_eq!(stats.len(), 2);
    assert_eq!(stats[0].eup_id, 10);
    assert_eq!(stats[1].eup_id, 11);
    assert_eq!(stats[0].total_score, 1);
}

#[test]
fn merge_orders_by_group_then_pick() {
    let picks = vec![
        pick(3, 300, "Gamma", "Ann", 2),
        pick(1, 100, "Alpha", "Bob", 1),
        pick(2, 200, "Beta", "Ann", 1),
    ];
    let mut st3 = empty_stat(3);
    st3.total_score = 5;
    let stats = vec![st3, empty_stat(2), empty_stat(1)];
    let out = merge_statistics_with_scores(&stats, &picks).expect("all picks found");
    let order: Vec<i64> = out.iter().map(|x| x.eup_id).collect();
    assert_eq!(order, vec![1, 2, 3]);
    assert_eq!(out[2].golfer_name, "Gamma");
    assert_eq!(out[2].bettor_name, "Ann");
    assert_eq!(out[2].espn_id, 300);
    assert_eq!(out[2].group, 2);
    assert_eq!(out[2].detailed_statistics.total_score, 5);
}

#[test]
fn merge_keeps_equal_keys_in_order() {
    let picks = vec![pick(1, 100, "Alpha", "Bob", 1)];
    let mut a = empty_stat(1);
    a.total_score = 10;
    let mut b = empty_stat(1);
    b.total_score = 20;
    let out = merge_statistics_with_scores(&[a, b], &picks).expect("found");
    assert_eq!(out[0].detailed_statistics.total_score, 10);
    assert_eq!(out[1].detailed_statistics.total_score, 20);
}

#[test]
fn merge_names_the_first_missing_pick() {
    let picks = vec![pick(1, 100, "Alpha", "Bob", 1)];
    let stats = vec![empty_stat(1), empty_stat(-9), empty_stat(8)];
    match merge_statistics_with_scores(&stats, &picks) {
        Err(msg) => assert_eq!(msg, "Failed to find golfer with eup_id -9 in scores data"),
        Ok(_) => panic!("a missing pick must fail"),
    }
}

#[test]
fn scores_from_answers_join_and_sort() {
    let picks = vec![pick(11, 1100, "Kappa", "Cy", 0), pick(10, 1000, "Iota", "Cy", 3)];
    let resp = PlayerJsonResponse {
        data: vec![sample_response(), obj(vec![])],
        eup_ids: vec![10, 11],
    };
    let out = scores_from_responses(&picks, &resp).expect("joined");
    assert_eq!(out[0].eup_id, 11);
    assert_eq!(out[1].eup_id, 10);
    assert_eq!(out[1].detailed_statistics.total_score, 1);
    let bad = PlayerJsonResponse { data: vec![obj(vec![])], eup_ids: vec![77] };
    match scores_from_responses(&picks, &bad) {
        Err(msg) => assert_eq!(msg, "Failed to find golfer with eup_id 77 in scores data"),
        Ok(_) => panic!("unknown pick must fail"),
    }
}

#[test]
fn request_groups_split_in_quarters() {
    assert_eq!(espn_request_groups(0), vec![]);
    assert_eq!(espn_request_groups(1), vec![(0, 1)]);
    assert_eq!(espn_request_groups(5), vec![(0, 2), (2, 2), (4, 1)]);
    assert_eq!(espn_request_groups(8), vec![(0, 2), (2, 2), (4, 2), (6, 2)]);
    assert_eq!(espn_request_groups(10), vec![(0, 3), (3, 3), (6, 3), (9, 1)]);
}

#[test]
fn request_groups_cover_every_pick_once() {
    for n in 0..50usize {
        let groups = espn_request_groups(n);
        assert!(groups.len() <= 4);
        let mut next = 0;
        for (start, len) in &groups {
            assert_eq!(*start, next);
            assert!(*len > 0 && *len <= n.div_ceil(4));
            next += len;
        }
        assert_eq!(next, n);
    }
}

#[test]
fn responses_combine_in_request_order() {
    let a = PlayerJsonResponse { data: vec![n(1), n(2)], eup_ids: vec![1, 2] };
    let b = PlayerJsonResponse { data: vec![], eup_ids: vec![] };
    let c = PlayerJsonResponse { data: vec![n(3)], eup_ids: vec![3] };
    let all = combine_responses(vec![a, b, c]);
    assert_eq!(all.eup_ids, vec![1, 2, 3]);
    assert_eq!(all.data.len(), 3);
    assert_eq!(all.data[2].as_i64(), Some(3));
}

#[test]
fn answers_without_rounds_are_dropped() {
    let mut resp = PlayerJsonResponse { data: vec![], eup_ids: vec![] };
    record_response(&mut resp, obj(vec![("rounds", JsonValue::Array(vec![]))]), 5);
    record_response(&mut resp, obj(vec![("athlete", n(1))]), 6);
    assert_eq!(resp.eup_ids, vec![5]);
    assert_eq!(resp.data.len(), 1);
    let _ = IntStat { val: 0 };
}

#[test]
fn service_answer_is_an_object() {
    match response_from_text(r#"{"rounds": [{"displayValue": "-1"}], "id": 7}"#) {
        Some(JsonValue::Object(members)) => assert_eq!(members.len(), 2),
        other => panic!("unexpected {other:?}"),
    }
    assert!(response_from_text("[1, 2]").is_none());
    assert!(response_from_text("<html>").is_none());
}
