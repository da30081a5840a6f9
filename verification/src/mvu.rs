use vstd::prelude::*;

use crate::score::{ScoreData, ScoresAndLastRefresh};
use crate::text::{owned, parse_i32, parsed_bool, parsed_i32, str_equal, trim_text, trimmed};

verus! {

/// The errors of the score page.
#[derive(Debug, Clone)]
pub enum AppError {
    Db(String),
    Network(String),
    Parse(String),
    NotFound(String),
    Other(String),
}

/// The text shown for an error (what `Display` writes).
pub open spec fn app_error_text(e: AppError) -> Seq<char> {
    match e {
        AppError::Db(s) => "db error: "@ + s@,
        AppError::Network(s) => "network error: "@ + s@,
        AppError::Parse(s) => "parse error: "@ + s@,
        AppError::NotFound(s) => "not found: "@ + s@,
        AppError::Other(s) => s@,
    }
}

impl AppError {
    /// The text shown for the error.
    pub fn message(&self) -> (r: String)
        ensures
            r@ == app_error_text(*self),
    {
        match self {
            AppError::Db(s) => owned("db error: ").concat(s.as_str()),
            AppError::Network(s) => owned("network error: ").concat(s.as_str()),
            AppError::Parse(s) => owned("parse error: ").concat(s.as_str()),
            AppError::NotFound(s) => owned("not found: ").concat(s.as_str()),
            AppError::Other(s) => s.clone(),
        }
    }
}

impl From<String> for AppError {
    fn from(e: String) -> (r: AppError) {
        AppError::Other(e)
    }
}

impl vstd::std_specs::convert::FromSpecImpl<String> for AppError {
    open spec fn obeys_from_spec() -> bool {
        true
    }

    open spec fn from_spec(e: String) -> AppError {
        AppError::Other(e)
    }
}

/// The state of the score page: the request, and what has been loaded so far. `M` is the
/// rendered page, `F` the event's step factor, `P` the golfers' step factors.
#[derive(Debug)]
pub struct ScoreModel<M, F, P> {
    pub event_id: i32,
    pub year: i32,
    pub use_cache: bool,
    pub expanded: bool,
    pub want_json: bool,
    pub cache_max_age: i64,
    pub data: Option<ScoreData>,
    pub markup: Option<M>,
    pub error: Option<AppError>,
    pub from_db_scores: Option<ScoresAndLastRefresh>,
    pub global_step_factor: Option<F>,
    pub player_step_factors: Option<P>,
}

impl<M, F, P> ScoreModel<M, F, P> {
    /// The state for a request, with nothing loaded.
    pub fn new(event_id: i32, year: i32, use_cache: bool, expanded: bool, want_json: bool, cache_max_age: i64) -> (r: ScoreModel<M, F, P>)
        ensures
            r.event_id == event_id && r.year == year && r.use_cache == use_cache && r.expanded
                == expanded && r.want_json == want_json && r.cache_max_age == cache_max_age,
            r.data is None && r.markup is None && r.error is None && r.from_db_scores is None
                && r.global_step_factor is None && r.player_step_factors is None,
    {
        ScoreModel {
            event_id,
            year,
            use_cache,
            expanded,
            want_json,
            cache_max_age,
            data: None,
            markup: None,
            error: None,
            from_db_scores: None,
            global_step_factor: None,
            player_step_factors: None,
        }
    }
}

/// What happened on the score page.
#[derive(Debug)]
pub enum Msg<M, F, P> {
    PageLoad,
    ScoresLoaded(ScoreData),
    EventConfigLoaded(F),
    PlayerFactorsLoaded(P),
    DbScoresLoaded(ScoresAndLastRefresh),
    Rendered(M),
    Failed(AppError),
}

/// The work that the score page asks for.
#[derive(Clone, Copy, Debug, PartialEq, Eq, Structural)]
pub enum Effect {
    LoadScores,
    LoadEventConfig,
    LoadPlayerFactors,
    LoadDbScores,
    RenderTemplate,
}

/// Everything the page template needs is there, and an HTML page is wanted.
pub open spec fn ready_to_render<M, F, P>(m: ScoreModel<M, F, P>) -> bool {
    &&& !m.want_json
    &&& m.data is Some
    &&& m.from_db_scores is Some
    &&& m.global_step_factor is Some
    &&& m.player_step_factors is Some
}

/// The state after `msg`.
pub open spec fn updated<M, F, P>(m: ScoreModel<M, F, P>, msg: Msg<M, F, P>) -> ScoreModel<M, F, P> {
    match msg {
        Msg::PageLoad => m,
        Msg::ScoresLoaded(d) => ScoreModel { data: Some(d), ..m },
        Msg::EventConfigLoaded(f) => ScoreModel { global_step_factor: Some(f), ..m },
        Msg::PlayerFactorsLoaded(p) => ScoreModel { player_step_factors: Some(p), ..m },
        Msg::DbScoresLoaded(s) => ScoreModel { from_db_scores: Some(s), ..m },
        Msg::Rendered(k) => ScoreModel { markup: Some(k), ..m },
        Msg::Failed(e) => ScoreModel { error: Some(e), ..m },
    }
}

/// The work asked for after `msg`: all four loads on a page load; the rendering when a load
/// completes what the template needs; nothing else.
pub open spec fn effects_of<M, F, P>(m: ScoreModel<M, F, P>, msg: Msg<M, F, P>) -> Seq<Effect> {
    match msg {
        Msg::PageLoad => seq![
            Effect::LoadScores,
            Effect::LoadEventConfig,
            Effect::LoadPlayerFactors,
            Effect::LoadDbScores,
        ],
        Msg::Rendered(_) => Seq::empty(),
        Msg::Failed(_) => Seq::empty(),
        _ => if ready_to_render(updated(m, msg)) {
            seq![Effect::RenderTemplate]
        } else {
            Seq::empty()
        },
    }
}

fn render_if_ready<M, F, P>(model: &ScoreModel<M, F, P>) -> (r: Vec<Effect>)
    ensures
        r@ == if ready_to_render(*model) {
            seq![Effect::RenderTemplate]
        } else {
            Seq::<Effect>::empty()
        },
{
    let mut v: Vec<Effect> = Vec::new();
    if !model.want_json && model.data.is_some() && model.from_db_scores.is_some()
        && model.global_step_factor.is_some() && model.player_step_factors.is_some() {
        v.push(Effect::RenderTemplate);
    }
    v
}

/// Takes in what happened and says what to do next.
pub fn update<M, F, P>(model: &mut ScoreModel<M, F, P>, msg: Msg<M, F, P>) -> (r: Vec<Effect>)
    ensures
        *final(model) == updated(*old(model), msg),
        r@ == effects_of(*old(model), msg),
{
    let ghost m0 = *model;
    let ghost msg0 = msg;
    match msg {
        Msg::PageLoad => {
            let mut v: Vec<Effect> = Vec::new();
            v.push(Effect::LoadScores);
            v.push(Effect::LoadEventConfig);
            v.push(Effect::LoadPlayerFactors);
            v.push(Effect::LoadDbScores);
            proof {
                assert(v@ =~= effects_of(m0, msg0));
            }
            v
        },
        Msg::ScoresLoaded(data) => {
            model.data = Some(data);
            render_if_ready(model)
        },
        Msg::EventConfigLoaded(step) => {
            model.global_step_factor = Some(step);
            render_if_ready(model)
        },
        Msg::PlayerFactorsLoaded(factors) => {
            model.player_step_factors = Some(factors);
            render_if_ready(model)
        },
        Msg::DbScoresLoaded(scores) => {
            model.from_db_scores = Some(scores);
            render_if_ready(model)
        },
        Msg::Rendered(markup) => {
            model.markup = Some(markup);
            Vec::new()
        },
        Msg::Failed(e) => {
            model.error = Some(e);
            Vec::new()
        },
    }
}

/// A page load asks for the four loads and changes nothing.
pub proof fn lemma_page_load<M, F, P>(m: ScoreModel<M, F, P>)
    ensures
        updated(m, Msg::PageLoad) == m,
        effects_of(m, Msg::PageLoad).len() == 4,
        !effects_of(m, Msg::PageLoad).contains(Effect::RenderTemplate),
{
    let e = effects_of(m, Msg::<M, F, P>::PageLoad);
    assert(e[0] != Effect::RenderTemplate && e[1] != Effect::RenderTemplate && e[2]
        != Effect::RenderTemplate && e[3] != Effect::RenderTemplate);
}

/// A request for JSON is never rendered as a page.
pub proof fn lemma_json_never_renders<M, F, P>(m: ScoreModel<M, F, P>, msg: Msg<M, F, P>)
    requires
        m.want_json,
    ensures
        !effects_of(m, msg).contains(Effect::RenderTemplate),
        updated(m, msg).want_json,
{
    if let Msg::PageLoad = msg {
        lemma_page_load(m);
    }
}

/// The page is rendered when the last of the four loads arrives, whatever their order:
/// when exactly one of them is still missing on an HTML request, the load that brings it
/// asks for the rendering, and a load that leaves one missing asks for nothing.
pub proof fn lemma_render_on_last_load<M, F, P>(m: ScoreModel<M, F, P>, msg: Msg<M, F, P>)
    requires
        !m.want_json,
        msg is ScoresLoaded || msg is EventConfigLoaded || msg is PlayerFactorsLoaded
            || msg is DbScoresLoaded,
    ensures
        effects_of(m, msg) == (if ready_to_render(updated(m, msg)) {
            seq![Effect::RenderTemplate]
        } else {
            Seq::<Effect>::empty()
        }),
        ready_to_render(updated(m, msg)) <==> (match msg {
            Msg::ScoresLoaded(_) => m.from_db_scores is Some && m.global_step_factor is Some
                && m.player_step_factors is Some,
            Msg::EventConfigLoaded(_) => m.data is Some && m.from_db_scores is Some
                && m.player_step_factors is Some,
            Msg::PlayerFactorsLoaded(_) => m.data is Some && m.from_db_scores is Some
                && m.global_step_factor is Some,
            _ => m.data is Some && m.global_step_factor is Some && m.player_step_factors is Some,
        }),
{
}

/// The value of the flag parameters `json` and `expanded`: `1` and `true` are true, `0`,
/// `false`, a missing parameter and anything else are false.
pub open spec fn flag_value(p: Option<Seq<char>>) -> bool {
    match p {
        Some(s) => if s == "1"@ {
            true
        } else if s == "0"@ {
            false
        } else {
            match parsed_bool(s) {
                Some(b) => b,
                None => false,
            }
        },
        None => false,
    }
}

/// Whether the cache may be used: unless the `cache` parameter is `0`.
pub open spec fn cache_flag(p: Option<Seq<char>>) -> bool {
    !(p == Some("0"@))
}

fn parse_bool(s: &str) -> (r: Option<bool>)
    ensures
        r == parsed_bool(s@),
{
    if str_equal(s, "true") {
        Some(true)
    } else if str_equal(s, "false") {
        Some(false)
    } else {
        None
    }
}

pub open spec fn opt_text(p: Option<&str>) -> Option<Seq<char>> {
    match p {
        Some(s) => Some(s@),
        None => None,
    }
}

/// Reads the flag parameters `json` and `expanded`.
pub fn parse_flag(p: Option<&str>) -> (r: bool)
    ensures
        r == flag_value(opt_text(p)),
{
    match p {
        Some(s) => {
            if str_equal(s, "1") {
                true
            } else if str_equal(s, "0") {
                false
            } else {
                match parse_bool(s) {
                    Some(b) => b,
                    None => false,
                }
            }
        },
        None => false,
    }
}

/// Reads the `cache` parameter.
pub fn parse_cache_flag(p: Option<&str>) -> (r: bool)
    ensures
        r == cache_flag(opt_text(p)),
{
    match p {
        Some(s) => !str_equal(s, "0"),
        None => true,
    }
}

/// How many days old the stored scores may be before they are fetched again: 99 when the
/// event asks for refreshes from the service, else 0; 0 when the event could not be read.
pub open spec fn cache_max_age_of(refresh_from_espn: Option<i64>) -> i64 {
    match refresh_from_espn {
        Some(1) => 99,
        _ => 0,
    }
}

/// How many days old the stored scores may be, from the event's refresh flag.
pub fn cache_max_age(refresh_from_espn: Option<i64>) -> (r: i64)
    ensures
        r == cache_max_age_of(refresh_from_espn),
{
    match refresh_from_espn {
        Some(1) => 99,
        _ => 0,
    }
}

/// The request for a score page, as read from its parameters.
#[derive(Clone, Copy, Debug, PartialEq, Eq, Structural)]
pub struct ScoreRequest {
    pub event_id: i32,
    pub year: i32,
    pub use_cache: bool,
    pub want_json: bool,
    pub expanded: bool,
}

/// The integer of a parameter, trimmed.
pub open spec fn int_param(p: Option<Seq<char>>) -> Option<i32> {
    match p {
        Some(s) => parsed_i32(trimmed(s)),
        None => None,
    }
}

fn parse_int_param(p: Option<&str>) -> (r: Option<i32>)
    ensures
        r == int_param(opt_text(p)),
{
    match p {
        Some(s) => parse_i32(trim_text(s)),
        None => None,
    }
}

/// Reads the parameters of a score page: `event` and `yr` are required integers; `cache`,
/// `json` and `expanded` are flags.
pub fn decode_request(event: Option<&str>, yr: Option<&str>, cache: Option<&str>, json: Option<&str>, expanded: Option<&str>) -> (r: Result<ScoreRequest, AppError>)
    ensures
        match r {
            Ok(q) => int_param(opt_text(event)) == Some(q.event_id) && int_param(opt_text(yr))
                == Some(q.year) && q.use_cache == cache_flag(opt_text(cache)) && q.want_json
                == flag_value(opt_text(json)) && q.expanded == flag_value(opt_text(expanded)),
            Err(e) => if int_param(opt_text(event)) is None {
                app_error_text(e) == "espn event parameter is required"@
            } else {
                int_param(opt_text(yr)) is None && app_error_text(e) == "yr (year) parameter is required"@
            },
        },
{
    let event_id = match parse_int_param(event) {
        Some(v) => v,
        None => {
            return Err(AppError::Other(owned("espn event parameter is required")));
        },
    };
    let year = match parse_int_param(yr) {
        Some(v) => v,
        None => {
            return Err(AppError::Other(owned("yr (year) parameter is required")));
        },
    };
    Ok(
        ScoreRequest {
            event_id,
            year,
            use_cache: parse_cache_flag(cache),
            want_json: parse_flag(json),
            expanded: parse_flag(expanded),
        },
    )
}

/// The value of parameter `key` among the request's parameters, `""` when it is missing.
pub open spec fn param_value(query: Seq<(String, String)>, key: Seq<char>) -> Seq<char>
    decreases query.len(),
{
    if query.len() == 0 {
        Seq::empty()
    } else if query[0].0@ == key {
        query[0].1@
    } else {
        param_value(query.drop_first(), key)
    }
}

/// The value of parameter `key`, `""` when it is missing.
pub fn get_param_str<'a>(query: &'a [(String, String)], key: &str) -> (r: &'a str)
    ensures
        r@ == param_value(query@, key@),
{
    let mut k: usize = 0;
    proof {
        assert(query@.skip(0) =~= query@);
    }
    while k < query.len()
        invariant
            k <= query@.len(),
            param_value(query@, key@) == param_value(query@.skip(k as int), key@),
        decreases query@.len() - k,
    {
        proof {
            assert(query@.skip(k as int)[0] == query@[k as int]);
            assert(query@.skip(k as int).drop_first() =~= query@.skip(k + 1));
        }
        if str_equal(query[k].0.as_str(), key) {
            return query[k].1.as_str();
        }
        k = k + 1;
    }
    proof {
        reveal_strlit("");
    }
    ""
}

} // verus!
