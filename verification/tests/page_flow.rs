use rusty_golf::cache::{fresh_cache, fresh_cache_at, Cache, TotalCache};
use rusty_golf::mvu::{
    cache_max_age, decode_request, get_param_str, parse_cache_flag, parse_flag, update, AppError,
    Effect, Msg, ScoreModel,
};
use rusty_golf::score::{RefreshSource, ScoreData, ScoresAndLastRefresh};

type Model = ScoreModel<String, u8, Vec<u8>>;
type M = Msg<String, u8, Vec<u8>>;

fn data() -> ScoreData {
    ScoreData {
        bettor_struct: vec![],
        score_struct: vec![],
        last_refresh: "now".to_string(),
        last_refresh_source: RefreshSource::Db,
    }
}

fn stored() -> ScoresAndLastRefresh {
    ScoresAndLastRefresh {
        score_struct: vec![],
        last_refresh_secs: 0,
        last_refresh_nanos: 0,
        last_refresh_source: RefreshSource::Db,
    }
}

#[test]
fn page_load_asks_for_four_loads() {
    let mut m: Model = ScoreModel::new(401, 2024, true, false, false, 0);
    let e = update(&mut m, M::PageLoad);
    assert_eq!(
        e,
        vec![Effect::LoadScores, Effect::LoadEventConfig, Effect::LoadPlayerFactors, Effect::LoadDbScores]
    );
    assert!(m.data.is_none());
}

#[test]
fn render_follows_the_last_load() {
    let mut m: Model = ScoreModel::new(401, 2024, true, false, false, 0);
    assert!(update(&mut m, M::EventConfigLoaded(3)).is_empty());
    assert!(update(&mut m, M::DbScoresLoaded(stored())).is_empty());
    assert!(update(&mut m, M::ScoresLoaded(data())).is_empty());
    assert_eq!(update(&mut m, M::PlayerFactorsLoaded(vec![1])), vec![Effect::RenderTemplate]);
    assert!(update(&mut m, M::Rendered("<html>".to_string())).is_empty());
    assert_eq!(m.markup.as_deref(), Some("<html>"));
    assert_eq!(m.global_step_factor, Some(3));
}

#[test]
fn json_requests_are_never_rendered() {
    let mut m: Model = ScoreModel::new(401, 2024, true, false, true, 0);
    assert!(update(&mut m, M::EventConfigLoaded(3)).is_empty());
    assert!(update(&mut m, M::DbScoresLoaded(stored())).is_empty());
    assert!(update(&mut m, M::PlayerFactorsLoaded(vec![])).is_empty());
    assert!(update(&mut m, M::ScoresLoaded(data())).is_empty());
    assert!(m.data.is_some());
}

#[test]
fn failures_are_recorded() {
    let mut m: Model = ScoreModel::new(1, 2, true, false, false, 0);
    assert!(update(&mut m, M::Failed(AppError::NotFound("event".into()))).is_empty());
    assert_eq!(m.error.map(|e| e.message()), Some("not found: event".to_string()));
}

#[test]
fn error_texts() {
    assert_eq!(AppError::Db("x".into()).message(), "db error: x");
    assert_eq!(AppError::Network("x".into()).message(), "network error: x");
    assert_eq!(AppError::Parse("x".into()).message(), "parse error: x");
    assert_eq!(AppError::NotFound("x".into()).message(), "not found: x");
    assert_eq!(AppError::Other("x".into()).message(), "x");
    assert_eq!(AppError::from("y".to_string()).message(), "y");
}

#[test]
fn request_parameters() {
    let q = decode_request(Some(" 401 "), Some("2024"), None, Some("true"), Some("1")).expect("valid");
    assert_eq!((q.event_id, q.year, q.use_cache, q.want_json, q.expanded), (401, 2024, true, true, true));
    let q = decode_request(Some("401"), Some("2024"), Some("0"), Some("maybe"), Some("0")).expect("valid");
    assert_eq!((q.use_cache, q.want_json, q.expanded), (false, false, false));
}

#[test]
fn missing_parameters_are_errors() {
    let e = decode_request(None, Some("2024"), None, None, None).err().expect("error");
    assert_eq!(e.message(), "espn event parameter is required");
    let e = decode_request(Some("x1"), None, None, None, None).err().expect("error");
    assert_eq!(e.message(), "espn event parameter is required");
    let e = decode_request(Some("1"), Some("yr"), None, None, None).err().expect("error");
    assert_eq!(e.message(), "yr (year) parameter is required");
}

#[test]
fn flags_and_cache_age() {
    assert!(parse_flag(Some("1")));
    assert!(parse_flag(Some("true")));
    assert!(!parse_flag(Some("false")));
    assert!(!parse_flag(Some("yes")));
    assert!(!parse_flag(None));
    assert!(parse_cache_flag(None));
    assert!(parse_cache_flag(Some("1")));
    assert!(parse_cache_flag(Some("x")));
    assert!(!parse_cache_flag(Some("0")));
    assert_eq!(cache_max_age(Some(1)), 99);
    assert_eq!(cache_max_age(Some(0)), 0);
    assert_eq!(cache_max_age(Some(2)), 0);
    assert_eq!(cache_max_age(None), 0);
}

#[test]
fn params_default_to_empty() {
    let q = vec![("cache".to_string(), "0".to_string()), ("json".to_string(), "1".to_string())];
    assert_eq!(get_param_str(&q, "json"), "1");
    assert_eq!(get_param_str(&q, "expanded"), "");
}

fn kept() -> Cache {
    Cache {
        data: Some(TotalCache { bettor_struct: vec![], score_struct: vec![], last_refresh: "old".into() }),
        cached_time: "2024-05-16T18:12:00+00:00".into(),
    }
}

#[test]
fn fresh_cache_shows_minutes_and_seconds() {
    let t = fresh_cache(kept(), 125_999_000_000).expect("fresh");
    assert_eq!(t.last_refresh, "2m, 5s");
    let t = fresh_cache(kept(), 0).expect("fresh");
    assert_eq!(t.last_refresh, "0m, 0s");
    let t = fresh_cache(kept(), -61_500_000_000).expect("fresh");
    assert_eq!(t.last_refresh, "-1m, -1s");
    let t = fresh_cache(kept(), 299_999_999_999).expect("fresh up to the last nanosecond");
    assert_eq!(t.last_refresh, "4m, 59s");
}

#[test]
fn stale_or_empty_cache_is_expired() {
    assert_eq!(fresh_cache(kept(), 300_000_000_000).err(), Some("Cache expired".to_string()));
    let empty = Cache { data: None, cached_time: String::new() };
    assert_eq!(fresh_cache(empty, 10).err(), Some("Cache expired".to_string()));
}

#[test]
fn fresh_cache_at_reads_the_kept_time() {
    let kept_secs: i64 = 1_715_883_120;
    let t = fresh_cache_at(kept(), (kept_secs + 125, 999_000_000)).expect("fresh");
    assert_eq!(t.last_refresh, "2m, 5s");
    let mut offset = kept();
    offset.cached_time = "2024-05-16T20:12:00+02:00".into();
    let t = fresh_cache_at(offset, (kept_secs + 61, 0)).expect("fresh");
    assert_eq!(t.last_refresh, "1m, 1s");
    let t = fresh_cache_at(kept(), (kept_secs + 299, 999_999_999)).expect("fresh");
    assert_eq!(t.last_refresh, "4m, 59s");
    match fresh_cache_at(kept(), (kept_secs + 300, 0)) {
        Err(m) => assert_eq!(m, "Cache expired"),
        Ok(_) => panic!("expected an expired cache"),
    }
    let mut fraction = kept();
    fraction.cached_time = "2024-05-16T18:12:00.0004+00:00".into();
    let t = fresh_cache_at(fraction, (kept_secs + 300, 300_000)).expect("under five minutes by 100 microseconds");
    assert_eq!(t.last_refresh, "4m, 59s");
    let mut bad = kept();
    bad.cached_time = "yesterday".into();
    match fresh_cache_at(bad, (kept_secs, 0)) {
        Err(m) => assert_eq!(m, "Invalid cached time"),
        Ok(_) => panic!("expected an error"),
    }
}

#[test]
fn fresh_cache_at_counts_a_leap_second() {
    let mut leap = kept();
    leap.cached_time = "2016-12-31T23:59:60.5Z".into();
    let t = fresh_cache_at(leap, (1_483_228_805, 0)).expect("fresh");
    assert_eq!(t.last_refresh, "0m, 4s");
}

#[test]
fn fresh_cache_at_far_before_the_kept_time() {
    let t = fresh_cache_at(kept(), (i64::MIN, 0)).expect("a negative age counts as fresh");
    assert_eq!(t.last_refresh, "-153722867309510982m, -8s");
}
