use std::fmt::Write;

use vstd::prelude::*;

use crate::json::{json_array_or_empty, json_get, json_i64, json_text, parse_json, parsed_json, JsonValue};
use crate::score::{
    calculate_total_score, process_round_score, round_score_value, running_sums_fit,
    score_display_of, sum_of_rounds, take_a_char_off, without_last_char, IntStat, LineScore,
    PlayerJsonResponse, ScoreDisplay, Scores, Statistic, StringStat, same_statistic,
};
use crate::text::{decimal_text, i64_text, owned, parse_i64, parsed_i64, without_leading_plus};

verus! {

/// The value of `v` as an `i32`, or 0 when it does not fit (`i32::try_from(v).unwrap_or(0)`).
pub open spec fn i32_or_zero(v: int) -> i32 {
    if i32::MIN <= v <= i32::MAX {
        v as i32
    } else {
        0
    }
}

/// The par of a hole as the service reports it, 0 when missing.
pub open spec fn line_par(ln: JsonValue) -> i64 {
    match json_i64(json_get(ln, "par"@)) {
        Some(p) => p,
        None => 0,
    }
}

/// The display text of a value's `displayValue` member, empty when missing.
pub open spec fn display_text(v: JsonValue) -> Seq<char> {
    match json_text(json_get(v, "displayValue"@)) {
        Some(t) => t,
        None => Seq::empty(),
    }
}

/// The strokes of a hole as the service reports them, 0 when they cannot be read.
pub open spec fn line_strokes(ln: JsonValue) -> i64 {
    match parsed_i64(without_leading_plus(display_text(ln))) {
        Some(s) => s,
        None => 0,
    }
}

/// The hole at position `idx` of round `round_index`.
pub open spec fn line_score_of(ln: JsonValue, idx: int, round_index: int) -> LineScore {
    LineScore {
        round: i32_or_zero(round_index),
        hole: (i32_or_zero(idx) + 1) as i32,
        score: i32_or_zero(line_strokes(ln) as int),
        par: i32_or_zero(line_par(ln) as int),
        score_display: score_display_of(i32_or_zero(line_par(ln) - line_strokes(ln)) as int),
    }
}

/// The holes of a round, in order.
pub open spec fn line_scores_of(lines: Seq<JsonValue>, round_index: int) -> Seq<LineScore> {
    Seq::new(lines.len(), |k: int| line_score_of(lines[k], k, round_index))
}

/// A round's holes can be read without an arithmetic overflow.
pub open spec fn lines_readable(lines: Seq<JsonValue>) -> bool {
    &&& lines.len() <= i32::MAX
    &&& forall|k: int|
        0 <= k < lines.len() ==> i64::MIN <= line_par(#[trigger] lines[k]) - line_strokes(lines[k])
            <= i64::MAX
}

fn i32_from_i64(v: i64) -> (r: i32)
    ensures
        r == i32_or_zero(v as int),
{
    if i32::MIN as i64 <= v && v <= i32::MAX as i64 {
        v as i32
    } else {
        0
    }
}

fn i32_from_usize(v: usize) -> (r: i32)
    ensures
        r == i32_or_zero(v as int),
{
    if v <= i32::MAX as usize {
        v as i32
    } else {
        0
    }
}

/// The display text of `v`'s `displayValue` member, `""` when missing.
fn display_value_of(v: &JsonValue) -> (r: &str)
    ensures
        r@ == display_text(*v),
{
    proof {
        reveal_strlit("");
    }
    match v.get("displayValue") {
        Some(d) => match d.as_str() {
            Some(t) => t,
            None => "",
        },
        None => "",
    }
}

/// Reads the holes of one round.
pub fn process_line_scores(line_scores_json: &[JsonValue], round_index: usize) -> (r: Vec<LineScore>)
    requires
        lines_readable(line_scores_json@),
    ensures
        r@ == line_scores_of(line_scores_json@, round_index as int),
{
    let mut out: Vec<LineScore> = Vec::new();
    let mut idx: usize = 0;
    while idx < line_scores_json.len()
        invariant
            idx <= line_scores_json@.len(),
            lines_readable(line_scores_json@),
            out@ == line_scores_of(line_scores_json@, round_index as int).take(idx as int),
        decreases line_scores_json@.len() - idx,
    {
        let ln = &line_scores_json[idx];
        let par: i64 = match ln.get("par") {
            Some(p) => match p.as_i64() {
                Some(v) => v,
                None => 0,
            },
            None => 0,
        };
        let text = crate::score::trim_leading_plus(display_value_of(ln));
        let strokes: i64 = match parse_i64(text) {
            Some(v) => v,
            None => 0,
        };
        assert(i64::MIN <= line_par(line_scores_json@[idx as int]) - line_strokes(
            line_scores_json@[idx as int],
        ) <= i64::MAX);
        let diff = i32_from_i64(par - strokes);
        let item = LineScore {
            hole: i32_from_usize(idx) + 1,
            score: i32_from_i64(strokes),
            par: i32_from_i64(par),
            score_display: ScoreDisplay::from_i32(diff),
            round: i32_from_usize(round_index),
        };
        out.push(item);
        proof {
            assert(out@ =~= line_scores_of(line_scores_json@, round_index as int).take(idx + 1));
        }
        idx = idx + 1;
    }
    proof {
        assert(line_scores_of(line_scores_json@, round_index as int).take(idx as int)
            =~= line_scores_of(line_scores_json@, round_index as int));
    }
    out
}

/// The date and time that `chrono` reads from `text` by the format `fmt`, as seconds and
/// nanoseconds since the epoch and the offset from UTC in seconds.
pub uninterp spec fn parsed_datetime(text: Seq<char>, fmt: Seq<char>) -> Option<(i64, u32, i32)>;

/// The text that `chrono` writes for an instant (seconds and nanoseconds since the epoch)
/// seen at an offset from UTC, by the format `fmt`.
pub uninterp spec fn formatted_datetime(secs: i64, nanos: u32, offset: i32, fmt: Seq<char>) -> Option<Seq<char>>;

/// `chrono::DateTime::parse_from_str`: the contract names the result, seconds and
/// nanoseconds since the epoch and the offset from UTC of the date read from `text` by the
/// format `fmt`, `None` when `chrono` refuses the text. Nothing is stated of which texts it
/// accepts.
#[verifier::external_body]
fn parse_datetime(text: &str, fmt: &str) -> (r: Option<(i64, u32, i32)>)
    ensures
        r == parsed_datetime(text@, fmt@),
{
    match chrono::DateTime::parse_from_str(text, fmt) {
        Ok(dt) => Some((dt.timestamp(), dt.timestamp_subsec_nanos(), dt.offset().local_minus_utc())),
        Err(_) => None,
    }
}

/// `chrono::DateTime::format`, written for the instant `secs`/`nanos` seen at the offset
/// `offset` (seconds east of UTC): the contract names the text written, `None` when the
/// offset or the instant is out of `chrono`'s range or the format cannot be written.
/// Nothing is stated of the text itself.
#[verifier::external_body]
fn format_datetime(secs: i64, nanos: u32, offset: i32, fmt: &str) -> (r: Option<String>)
    ensures
        match r {
            Some(t) => formatted_datetime(secs, nanos, offset, fmt@) == Some(t@),
            None => formatted_datetime(secs, nanos, offset, fmt@) is None,
        },
{
    let zone = chrono::FixedOffset::east_opt(offset)?;
    let at = chrono::DateTime::from_timestamp(secs, nanos)?;
    let mut out = String::new();
    match write!(out, "{}", at.with_timezone(&zone).format(fmt)) {
        Ok(()) => Some(out),
        Err(_) => None,
    }
}

/// The format in which the service reports tee times (after the zone is made explicit).
pub open spec fn tee_time_format() -> Seq<char> {
    "%Y-%m-%dT%H:%MZ%z"@
}

/// The format in which tee times are shown, such as `5/16 1:12pm`.
pub open spec fn tee_time_display_format() -> Seq<char> {
    "%-m/%d %-I:%M%P"@
}

/// Tee times are shown in US Central (UTC-5).
pub open spec fn central_offset() -> i32 {
    -18000i32
}

/// A tee time that ends in `Z` gets an explicit `+0000` zone.
pub open spec fn tee_time_input(t: Seq<char>) -> Seq<char> {
    if t.len() > 0 && t.last() == 'Z' {
        t + "+0000"@
    } else {
        t
    }
}

/// The shown tee time for the service's text `t`, without its last character (`"1:12pm"`
/// becomes `"1:12p"`); `None` when the time cannot be read.
pub open spec fn tee_time_text(t: Seq<char>) -> Option<Seq<char>> {
    match parsed_datetime(tee_time_input(t), tee_time_format()) {
        None => None,
        Some((secs, nanos, _)) => match formatted_datetime(
            secs,
            nanos,
            central_offset(),
            tee_time_display_format(),
        ) {
            Some(f) => Some(without_last_char(f)),
            None => None,
        },
    }
}

/// Gives a tee time that ends in `Z` an explicit `+0000` zone.
pub fn tee_time_with_zone(tee_time: &str) -> (r: String)
    ensures
        r@ == tee_time_input(tee_time@),
{
    let n = tee_time.unicode_len();
    if n > 0 && tee_time.get_char(n - 1) == 'Z' {
        owned(tee_time).concat("+0000")
    } else {
        owned(tee_time)
    }
}

/// Reads a tee time such as `2024-05-16T18:12Z` and gives it as shown on the score page,
/// in US Central time; `None` when it cannot be read.
pub fn process_tee_time(tee_time: &str) -> (r: Option<StringStat>)
    ensures
        match r {
            Some(s) => tee_time_text(tee_time@) == Some(s.val@),
            None => tee_time_text(tee_time@) is None,
        },
{
    let input = tee_time_with_zone(tee_time);
    match parse_datetime(input.as_str(), "%Y-%m-%dT%H:%MZ%z") {
        None => None,
        Some((secs, nanos, _)) => match format_datetime(secs, nanos, -18000, "%-m/%d %-I:%M%P") {
            Some(text) => Some(StringStat { val: take_a_char_off(text.as_str()) }),
            None => None,
        },
    }
}


/// The rounds of one answer of the service, empty when missing.
pub open spec fn response_rounds(resp: JsonValue) -> Seq<JsonValue> {
    json_array_or_empty(json_get(resp, "rounds"@))
}

/// The holes of one round, empty when missing.
pub open spec fn round_lines(round: JsonValue) -> Seq<JsonValue> {
    json_array_or_empty(json_get(round, "linescores"@))
}

/// The tee time text of one round, empty when missing.
pub open spec fn tee_text_of(round: JsonValue) -> Seq<char> {
    match json_text(json_get(round, "teeTime"@)) {
        Some(t) => t,
        None => Seq::empty(),
    }
}

/// The holes of all `rounds`, round after round.
pub open spec fn lines_through(rounds: Seq<JsonValue>) -> Seq<LineScore>
    decreases rounds.len(),
{
    if rounds.len() == 0 {
        Seq::empty()
    } else {
        lines_through(rounds.drop_last()) + line_scores_of(
            round_lines(rounds.last()),
            rounds.len() - 1,
        )
    }
}

/// The shown tee times of the rounds whose tee time can be read, in order.
pub open spec fn tee_times_through(rounds: Seq<JsonValue>) -> Seq<Seq<char>>
    decreases rounds.len(),
{
    if rounds.len() == 0 {
        Seq::empty()
    } else {
        let before = tee_times_through(rounds.drop_last());
        match tee_time_text(tee_text_of(rounds.last())) {
            Some(t) => before.push(t),
            None => before,
        }
    }
}

/// The score of each round.
pub open spec fn round_scores_of(rounds: Seq<JsonValue>) -> Seq<IntStat> {
    Seq::new(rounds.len(), |i: int| IntStat { val: round_score_value(display_text(rounds[i])) })
}

/// The statistics of one answer can be computed without an arithmetic overflow.
pub open spec fn response_readable(resp: JsonValue) -> bool {
    let rounds = response_rounds(resp);
    &&& forall|i: int| 0 <= i < rounds.len() ==> lines_readable(round_lines(#[trigger] rounds[i]))
    &&& running_sums_fit(round_scores_of(rounds))
}

/// The texts of tee times.
pub open spec fn stat_texts(v: Seq<StringStat>) -> Seq<Seq<char>> {
    v.map_values(|t: StringStat| t.val@)
}

/// `st` holds what the answer `resp` says of golfer pick `eup`: round numbers from 0, each
/// round's score, all holes in order, the holes played through each round, the readable
/// tee times, and the sum of the round scores.
pub open spec fn statistic_matches(st: Statistic, resp: JsonValue, eup: i64) -> bool {
    let rounds = response_rounds(resp);
    &&& st.eup_id == eup
    &&& st.rounds@ == Seq::new(rounds.len(), |i: int| IntStat { val: i32_or_zero(i) })
    &&& st.round_scores@ == round_scores_of(rounds)
    &&& st.line_scores@ == lines_through(rounds)
    &&& st.holes_completed_by_round@ == Seq::new(
        rounds.len(),
        |i: int| IntStat { val: i32_or_zero(lines_through(rounds.take(i + 1)).len() as int) },
    )
    &&& stat_texts(st.tee_times@) == tee_times_through(rounds)
    &&& st.total_score == sum_of_rounds(round_scores_of(rounds))
}

fn array_member<'a>(v: &'a JsonValue, key: &str) -> (r: &'a [JsonValue])
    ensures
        r@ == json_array_or_empty(json_get(*v, key@)),
{
    match v.get(key) {
        Some(m) => match m.as_array() {
            Some(items) => items.as_slice(),
            None => {
                let empty: &[JsonValue] = &[];
                assert(empty@ =~= Seq::<JsonValue>::empty());
                empty
            },
        },
        None => {
            let empty: &[JsonValue] = &[];
            assert(empty@ =~= Seq::<JsonValue>::empty());
            empty
        },
    }
}

fn text_member<'a>(v: &'a JsonValue, key: &str) -> (r: &'a str)
    ensures
        r@ == (match json_text(json_get(*v, key@)) {
            Some(t) => t,
            None => Seq::<char>::empty(),
        }),
{
    proof {
        reveal_strlit("");
    }
    match v.get(key) {
        Some(m) => match m.as_str() {
            Some(t) => t,
            None => "",
        },
        None => "",
    }
}

/// Reads the statistics of golfer pick `eup` from one answer of the service.
pub fn statistic_from_response(resp: &JsonValue, eup: i64) -> (r: Statistic)
    requires
        response_readable(*resp),
    ensures
        statistic_matches(r, *resp, eup),
{
    let rounds = array_member(resp, "rounds");
    let ghost rs = rounds@;
    let mut round_numbers: Vec<IntStat> = Vec::new();
    let mut round_scores: Vec<IntStat> = Vec::new();
    let mut tee_times: Vec<StringStat> = Vec::new();
    let mut holes_completed: Vec<IntStat> = Vec::new();
    let mut line_scores: Vec<LineScore> = Vec::new();
    let mut i: usize = 0;
    while i < rounds.len()
        invariant
            i <= rs.len(),
            rs == rounds@,
            rs == response_rounds(*resp),
            response_readable(*resp),
            round_numbers@ == Seq::new(i as nat, |k: int| IntStat { val: i32_or_zero(k) }),
            round_scores@ == round_scores_of(rs).take(i as int),
            line_scores@ == lines_through(rs.take(i as int)),
            holes_completed@ == Seq::new(
                i as nat,
                |k: int| IntStat { val: i32_or_zero(lines_through(rs.take(k + 1)).len() as int) },
            ),
            stat_texts(tee_times@) == tee_times_through(rs.take(i as int)),
        decreases rs.len() - i,
    {
        let round = &rounds[i];
        proof {
            assert(rs.take(i + 1).drop_last() =~= rs.take(i as int));
            assert(rs.take(i + 1).last() == rs[i as int]);
            assert(lines_readable(round_lines(rs[i as int])));
        }
        let lines = array_member(round, "linescores");
        let new_lines = process_line_scores(lines, i);
        let mut k: usize = 0;
        let ghost before_lines = line_scores@;
        while k < new_lines.len()
            invariant
                k <= new_lines@.len(),
                line_scores@ == before_lines + new_lines@.take(k as int),
            decreases new_lines@.len() - k,
        {
            line_scores.push(new_lines[k]);
            proof {
                assert(new_lines@.take(k + 1) =~= new_lines@.take(k as int).push(new_lines@[k as int]));
                assert(line_scores@ =~= before_lines + new_lines@.take(k + 1));
            }
            k = k + 1;
        }
        proof {
            assert(new_lines@.take(k as int) =~= new_lines@);
            assert(line_scores@ =~= lines_through(rs.take(i + 1)));
        }
        round_numbers.push(IntStat { val: i32_from_usize(i) });
        let score = process_round_score(display_value_of(round), i);
        round_scores.push(score);
        let tee = text_member(round, "teeTime");
        let ghost before_tees = tee_times@;
        match process_tee_time(tee) {
            Some(t) => {
                tee_times.push(t);
                proof {
                    assert(stat_texts(tee_times@) =~= stat_texts(before_tees).push(tee_times@.last().val@));
                }
            },
            None => {},
        }
        let holes = line_scores.len();
        holes_completed.push(IntStat { val: i32_from_usize(holes) });
        proof {
            assert(round_numbers@ =~= Seq::new((i + 1) as nat, |k: int| IntStat { val: i32_or_zero(k) }));
            assert(round_scores@ =~= round_scores_of(rs).take(i + 1));
            assert(holes_completed@ =~= Seq::new(
                (i + 1) as nat,
                |k: int| IntStat { val: i32_or_zero(lines_through(rs.take(k + 1)).len() as int) },
            ));
            assert(stat_texts(tee_times@) =~= tee_times_through(rs.take(i + 1)));
        }
        i = i + 1;
    }
    proof {
        assert(rs.take(i as int) =~= rs);
        assert(round_scores_of(rs).take(i as int) =~= round_scores_of(rs));
    }
    let total_score = calculate_total_score(round_scores.as_slice());
    Statistic {
        eup_id: eup,
        rounds: round_numbers,
        round_scores,
        tee_times,
        holes_completed_by_round: holes_completed,
        line_scores,
        total_score,
    }
}

/// Every answer has a golfer pick, and each can be read without an arithmetic overflow.
pub open spec fn responses_readable(r: PlayerJsonResponse) -> bool {
    &&& r.data@.len() <= r.eup_ids@.len()
    &&& forall|k: int| 0 <= k < r.data@.len() ==> response_readable(#[trigger] r.data@[k])
}

/// Reads the statistics of each answer of the service, in order.
pub fn process_json_to_statistics(json_responses: &PlayerJsonResponse) -> (r: Result<Vec<Statistic>, String>)
    requires
        responses_readable(*json_responses),
    ensures
        match r {
            Ok(stats) => stats@.len() == json_responses.data@.len() && forall|k: int|
                0 <= k < stats@.len() ==> statistic_matches(
                    #[trigger] stats@[k],
                    json_responses.data@[k],
                    json_responses.eup_ids@[k],
                ),
            Err(_) => false,
        },
{
    let mut stats: Vec<Statistic> = Vec::new();
    let mut k: usize = 0;
    while k < json_responses.data.len()
        invariant
            k <= json_responses.data@.len(),
            responses_readable(*json_responses),
            stats@.len() == k,
            forall|j: int|
                0 <= j < k ==> statistic_matches(
                    #[trigger] stats@[j],
                    json_responses.data@[j],
                    json_responses.eup_ids@[j],
                ),
        decreases json_responses.data@.len() - k,
    {
        assert(response_readable(json_responses.data@[k as int]));
        let st = statistic_from_response(&json_responses.data[k], json_responses.eup_ids[k]);
        stats.push(st);
        k = k + 1;
    }
    Ok(stats)
}


/// The position of the first pick in `scores`, from position `j` on, whose golfer pick is
/// `eup`.
pub open spec fn first_match_from(scores: Seq<Scores>, eup: i64, j: int) -> Option<int>
    decreases scores.len() - j,
{
    if j < 0 || j >= scores.len() {
        None
    } else if scores[j].eup_id == eup {
        Some(j)
    } else {
        first_match_from(scores, eup, j + 1)
    }
}

/// The position of the first pick in `scores` whose golfer pick is `eup`.
pub open spec fn first_match(scores: Seq<Scores>, eup: i64) -> Option<int> {
    first_match_from(scores, eup, 0)
}

/// The position of the first statistic, from position `i` on, whose golfer pick has no
/// entry in `scores`.
pub open spec fn first_unmatched_from(stats: Seq<Statistic>, scores: Seq<Scores>, i: int) -> Option<int>
    decreases stats.len() - i,
{
    if i < 0 || i >= stats.len() {
        None
    } else if first_match(scores, stats[i].eup_id) is None {
        Some(i)
    } else {
        first_unmatched_from(stats, scores, i + 1)
    }
}

/// The position of the first statistic whose golfer pick has no entry in `scores`.
pub open spec fn first_unmatched(stats: Seq<Statistic>, scores: Seq<Scores>) -> Option<int> {
    first_unmatched_from(stats, scores, 0)
}

/// The message for a statistic whose golfer pick `eup` is missing from the picks.
pub open spec fn missing_golfer_message(eup: i64) -> Seq<char> {
    "Failed to find golfer with eup_id "@ + decimal_text(eup as int) + " in scores data"@
}

/// `out` is the pick `pick` with the statistics `st` in place of its own.
pub open spec fn merged_pick(out: Scores, st: Statistic, pick: Scores) -> bool {
    &&& out.eup_id == st.eup_id
    &&& out.espn_id == pick.espn_id
    &&& out.golfer_name@ == pick.golfer_name@
    &&& out.bettor_name@ == pick.bettor_name@
    &&& out.group == pick.group
    &&& same_statistic(out.detailed_statistics, st)
}

/// `out` is the statistic `st` joined to the first pick in `scores` with the same golfer
/// pick.
pub open spec fn merged_from(out: Scores, st: Statistic, scores: Seq<Scores>) -> bool {
    match first_match(scores, st.eup_id) {
        Some(m) => merged_pick(out, st, scores[m]),
        None => false,
    }
}

/// The order of the scoreboard: by group, then by golfer pick.
pub open spec fn pick_key_le(g1: i64, e1: i64, g2: i64, e2: i64) -> bool {
    g1 < g2 || (g1 == g2 && e1 <= e2)
}

/// `out` holds the statistics `stats`, each merged with its pick in `scores`, ordered by
/// group and golfer pick, statistics with the same group and pick in their given order:
/// `out[j]` comes from `stats[perm[j]]`.
pub open spec fn merged_in_order(out: Seq<Scores>, stats: Seq<Statistic>, scores: Seq<Scores>, perm: Seq<int>) -> bool {
    &&& out.len() == stats.len()
    &&& perm.len() == out.len()
    &&& forall|j: int| 0 <= j < perm.len() ==> 0 <= #[trigger] perm[j] < stats.len()
    &&& forall|j: int, l: int| 0 <= j < l < perm.len() ==> perm[j] != perm[l]
    &&& forall|j: int|
        0 <= j < out.len() ==> merged_from(#[trigger] out[j], stats[perm[j]], scores)
    &&& forall|j: int, l: int|
        0 <= j < l < out.len() ==> pick_key_le(out[j].group, out[j].eup_id, out[l].group, out[l].eup_id)
    &&& forall|j: int, l: int|
        0 <= j < l < out.len() && out[j].group == out[l].group && out[j].eup_id == out[l].eup_id
            ==> perm[j] < perm[l]
}

/// `out` holds the statistics `stats`, each joined to its pick in `scores`, in the order of
/// the scoreboard, statistics with the same group and pick in their given order.
pub open spec fn merged_sorted(out: Seq<Scores>, stats: Seq<Statistic>, scores: Seq<Scores>) -> bool {
    exists|perm: Seq<int>| #[trigger] merged_in_order(out, stats, scores, perm)
}

proof fn lemma_first_unmatched_in_range(stats: Seq<Statistic>, scores: Seq<Scores>, i: int)
    requires
        0 <= i,
    ensures
        first_unmatched_from(stats, scores, i) matches Some(k) ==> i <= k < stats.len(),
    decreases stats.len() - i,
{
    if i < stats.len() {
        lemma_first_unmatched_in_range(stats, scores, i + 1);
    }
}

proof fn lemma_first_match_skip(scores: Seq<Scores>, eup: i64, j: int)
    requires
        0 <= j < scores.len(),
        scores[j].eup_id != eup,
    ensures
        first_match_from(scores, eup, j) == first_match_from(scores, eup, j + 1),
{
}

/// The position of the first pick in `scores` whose golfer pick is `eup`.
fn find_pick(scores: &[Scores], eup: i64) -> (r: Option<usize>)
    ensures
        match r {
            Some(j) => j < scores@.len() && first_match(scores@, eup) == Some(j as int),
            None => first_match(scores@, eup) is None,
        },
{
    let mut j: usize = 0;
    while j < scores.len()
        invariant
            j <= scores@.len(),
            first_match(scores@, eup) == first_match_from(scores@, eup, j as int),
        decreases scores@.len() - j,
    {
        if scores[j].eup_id == eup {
            return Some(j);
        }
        proof {
            lemma_first_match_skip(scores@, eup, j as int);
        }
        j = j + 1;
    }
    None
}

/// Joins each statistic to the golfer pick it belongs to, then orders the result by group
/// and golfer pick (statistics with the same group and pick keep their order). Fails with
/// a message naming the first statistic whose golfer pick is missing from `scores`.
pub fn merge_statistics_with_scores(statistics: &[Statistic], scores: &[Scores]) -> (r: Result<Vec<Scores>, String>)
    ensures
        r is Ok <==> first_unmatched(statistics@, scores@) is None,
        r matches Ok(out) ==> merged_sorted(out@, statistics@, scores@),
        r matches Err(msg) ==> first_unmatched(statistics@, scores@) matches Some(i)
            && msg@ == missing_golfer_message(statistics@[i].eup_id),
{
    let mut out: Vec<Scores> = Vec::new();
    let ghost mut perm: Seq<int> = Seq::empty();
    let mut i: usize = 0;
    while i < statistics.len()
        invariant
            i <= statistics@.len(),
            first_unmatched(statistics@, scores@) == first_unmatched_from(statistics@, scores@, i as int),
            out@.len() == i,
            perm.len() == i,
            forall|j: int| 0 <= j < perm.len() ==> 0 <= #[trigger] perm[j] < i,
            forall|j: int, l: int| 0 <= j < l < perm.len() ==> perm[j] != perm[l],
            forall|j: int|
                0 <= j < out@.len() ==> merged_from(#[trigger] out@[j], statistics@[perm[j]], scores@),
            forall|j: int, l: int|
                0 <= j < l < out@.len() ==> pick_key_le(
                    out@[j].group,
                    out@[j].eup_id,
                    out@[l].group,
                    out@[l].eup_id,
                ),
            forall|j: int, l: int|
                0 <= j < l < out@.len() && out@[j].group == out@[l].group && out@[j].eup_id
                    == out@[l].eup_id ==> perm[j] < perm[l],
        decreases statistics@.len() - i,
    {
        let st = &statistics[i];
        match find_pick(scores, st.eup_id) {
            None => {
                proof {
                    assert(first_unmatched_from(statistics@, scores@, i as int) == Some(i as int));
                }
                let msg = owned("Failed to find golfer with eup_id ").concat(
                    i64_text(st.eup_id).as_str(),
                ).concat(" in scores data");
                return Err(msg);
            },
            Some(m) => {
                proof {
                    assert(first_unmatched_from(statistics@, scores@, i as int)
                        == first_unmatched_from(statistics@, scores@, i + 1));
                }
                let pick = &scores[m];
                let item = Scores {
                    eup_id: st.eup_id,
                    espn_id: pick.espn_id,
                    golfer_name: pick.golfer_name.clone(),
                    bettor_name: pick.bettor_name.clone(),
                    detailed_statistics: st.duplicate(),
                    group: pick.group,
                };
                let mut pos: usize = 0;
                while pos < out.len() && (out[pos].group < item.group || (out[pos].group
                    == item.group && out[pos].eup_id <= item.eup_id))
                    invariant
                        pos <= out@.len(),
                        forall|j: int|
                            0 <= j < pos ==> pick_key_le(
                                #[trigger] out@[j].group,
                                out@[j].eup_id,
                                item.group,
                                item.eup_id,
                            ),
                    decreases out@.len() - pos,
                {
                    pos = pos + 1;
                }
                let ghost old_out = out@;
                let ghost old_perm = perm;
                proof {
                    assert forall|j: int| pos <= j < old_out.len() implies !pick_key_le(
                        #[trigger] old_out[j].group,
                        old_out[j].eup_id,
                        item.group,
                        item.eup_id,
                    ) by {
                        if j > pos {
                            assert(pick_key_le(
                                old_out[pos as int].group,
                                old_out[pos as int].eup_id,
                                old_out[j].group,
                                old_out[j].eup_id,
                            ));
                        }
                    }
                }
                out.insert(pos, item);
                proof {
                    perm = old_perm.insert(pos as int, i as int);
                    assert(out@ =~= old_out.insert(pos as int, item));
                    assert(merged_from(item, statistics@[i as int], scores@));
                    assert forall|j: int| 0 <= j < out@.len() implies merged_from(
                        #[trigger] out@[j],
                        statistics@[perm[j]],
                        scores@,
                    ) by {
                        if j < pos {
                            assert(out@[j] == old_out[j]);
                            assert(perm[j] == old_perm[j]);
                        } else if j > pos {
                            assert(out@[j] == old_out[j - 1]);
                            assert(perm[j] == old_perm[j - 1]);
                        }
                    }
                    assert forall|j: int, l: int| 0 <= j < l < out@.len() implies pick_key_le(
                        out@[j].group,
                        out@[j].eup_id,
                        out@[l].group,
                        out@[l].eup_id,
                    ) by {
                        if j < pos && l > pos {
                            assert(pick_key_le(old_out[j].group, old_out[j].eup_id, item.group, item.eup_id));
                            assert(!pick_key_le(old_out[l - 1].group, old_out[l - 1].eup_id, item.group, item.eup_id));
                        } else if j < pos && l == pos {
                        } else if j == pos {
                            assert(!pick_key_le(old_out[l - 1].group, old_out[l - 1].eup_id, item.group, item.eup_id));
                        } else if j > pos {
                            assert(out@[j] == old_out[j - 1]);
                            assert(out@[l] == old_out[l - 1]);
                        } else {
                            assert(out@[j] == old_out[j]);
                            assert(out@[l] == old_out[l - 1] || out@[l] == old_out[l]);
                        }
                    }
                    assert forall|j: int, l: int|
                        0 <= j < l < out@.len() && out@[j].group == out@[l].group && out@[j].eup_id
                            == out@[l].eup_id implies perm[j] < perm[l] by {
                        if l == pos {
                            assert(perm[j] == old_perm[j]);
                        } else if j == pos {
                            assert(!pick_key_le(old_out[l - 1].group, old_out[l - 1].eup_id, item.group, item.eup_id));
                        } else if j > pos {
                            assert(perm[j] == old_perm[j - 1] && perm[l] == old_perm[l - 1]);
                        } else if l > pos {
                            assert(pick_key_le(old_out[j].group, old_out[j].eup_id, item.group, item.eup_id));
                            assert(!pick_key_le(old_out[l - 1].group, old_out[l - 1].eup_id, item.group, item.eup_id));
                        } else {
                            assert(perm[j] == old_perm[j] && perm[l] == old_perm[l]);
                        }
                    }
                    assert forall|j: int, l: int| 0 <= j < l < perm.len() implies perm[j] != perm[l] by {
                        if j < pos && l < pos {
                            assert(perm[j] == old_perm[j] && perm[l] == old_perm[l]);
                        } else if j < pos && l > pos {
                            assert(perm[j] == old_perm[j] && perm[l] == old_perm[l - 1]);
                        } else if j > pos {
                            assert(perm[j] == old_perm[j - 1] && perm[l] == old_perm[l - 1]);
                        }
                    }
                    assert forall|j: int| 0 <= j < perm.len() implies 0 <= #[trigger] perm[j] < i + 1 by {
                        if j < pos {
                            assert(perm[j] == old_perm[j]);
                        } else if j > pos {
                            assert(perm[j] == old_perm[j - 1]);
                        }
                    }
                }
            },
        }
        i = i + 1;
    }
    proof {
        assert(out@.len() == statistics@.len());
        assert(forall|j: int| 0 <= j < perm.len() ==> 0 <= #[trigger] perm[j] < statistics@.len());
        assert(first_unmatched_from(statistics@, scores@, i as int) is None);
        assert(merged_in_order(out@, statistics@, scores@, perm));
        assert(first_unmatched(statistics@, scores@) is None);
        assert(merged_sorted(out@, statistics@, scores@));
    }
    Ok(out)
}


/// The statistics of each answer of the service joined to the golfer picks they belong to,
/// in the order of the scoreboard: what is left to compute once the answers are in.
pub fn scores_from_responses(scores: &[Scores], json_responses: &PlayerJsonResponse) -> (r: Result<Vec<Scores>, String>)
    requires
        responses_readable(*json_responses),
    ensures
        match r {
            Ok(out) => scored_responses(out@, *json_responses, scores@),
            Err(msg) => unmatched_response(msg@, *json_responses, scores@),
        },
{
    match process_json_to_statistics(json_responses) {
        Ok(stats) => {
            proof {
                assert(statistics_of(stats@, *json_responses));
            }
            match merge_statistics_with_scores(stats.as_slice(), scores) {
                Ok(out) => {
                    proof {
                        assert(first_unmatched(stats@, scores@) is None);
                        assert(merged_sorted(out@, stats@, scores@));
                        assert(merges_to(out@, stats@, scores@));
                        assert(scored_responses(out@, *json_responses, scores@));
                    }
                    Ok(out)
                },
                Err(msg) => {
                    proof {
                        let i = first_unmatched(stats@, scores@)->0;
                        lemma_first_unmatched_in_range(stats@, scores@, 0);
                        assert(statistic_matches(stats@[i], json_responses.data@[i], json_responses.eup_ids@[i]));
                        assert(unmatched_response(msg@, *json_responses, scores@));
                    }
                    Err(msg)
                },
            }
        },
        Err(e) => Err(e),
    }
}

/// Every statistic of `stats` has its golfer pick in `scores`, and `out` holds them joined
/// to their picks in the order of the scoreboard.
pub open spec fn merges_to(out: Seq<Scores>, stats: Seq<Statistic>, scores: Seq<Scores>) -> bool {
    first_unmatched(stats, scores) is None && merged_sorted(out, stats, scores)
}

/// `out` holds the statistics read from the answers of the service, joined to their picks
/// in `scores`, in the order of the scoreboard.
pub open spec fn scored_responses(out: Seq<Scores>, json_responses: PlayerJsonResponse, scores: Seq<Scores>) -> bool {
    exists|stats: Seq<Statistic>| #[trigger] statistics_of(stats, json_responses) && merges_to(out, stats, scores)
}

/// `msg` names the golfer pick of the first answer whose pick is missing from `scores`.
pub open spec fn unmatched_response(msg: Seq<char>, json_responses: PlayerJsonResponse, scores: Seq<Scores>) -> bool {
    exists|stats: Seq<Statistic>| #[trigger] statistics_of(stats, json_responses)
        && (first_unmatched(stats, scores) matches Some(i)
        && msg == missing_golfer_message(json_responses.eup_ids@[i]))
}

/// `stats` holds, in order, the statistics read from each answer of the service.
pub open spec fn statistics_of(stats: Seq<Statistic>, json_responses: PlayerJsonResponse) -> bool {
    &&& stats.len() == json_responses.data@.len()
    &&& forall|k: int|
        0 <= k < stats.len() ==> statistic_matches(
            #[trigger] stats[k],
            json_responses.data@[k],
            json_responses.eup_ids@[k],
        )
}


/// How many golfer picks each of the four parallel requests to the service carries: a
/// quarter of them, rounded up.
pub open spec fn request_group_size(n: int) -> int {
    (n + 3) / 4
}

/// The nonempty groups among requests `k` to 3, as (first pick, number of picks): request
/// `k` takes the picks from `k * g` on, at most `g` of them.
pub open spec fn request_groups_from(n: int, g: int, k: int) -> Seq<(int, int)>
    decreases 4 - k,
{
    if k < 0 || k >= 4 {
        Seq::empty()
    } else {
        let start = k * g;
        let rest = request_groups_from(n, g, k + 1);
        if start < n {
            seq![(start, if g <= n - start { g } else { n - start })] + rest
        } else {
            rest
        }
    }
}

/// The groups in which `n` golfer picks are handed to the four parallel requests; requests
/// that would get no pick are left out.
pub open spec fn request_groups(n: int) -> Seq<(int, int)> {
    request_groups_from(n, request_group_size(n), 0)
}

pub open spec fn group_pairs(v: Seq<(usize, usize)>) -> Seq<(int, int)> {
    v.map_values(|p: (usize, usize)| (p.0 as int, p.1 as int))
}

/// Splits `n` golfer picks into the groups of the four parallel requests to the service,
/// each given as (first pick, number of picks).
pub fn espn_request_groups(n: usize) -> (r: Vec<(usize, usize)>)
    ensures
        group_pairs(r@) == request_groups(n as int),
{
    let g: usize = n / 4 + if n % 4 != 0 { 1 } else { 0 };
    assert(g == request_group_size(n as int));
    let mut out: Vec<(usize, usize)> = Vec::new();
    let mut k: usize = 0;
    while k < 4
        invariant
            k <= 4,
            g == request_group_size(n as int),
            group_pairs(out@) + request_groups_from(n as int, g as int, k as int) == request_groups(n as int),
        decreases 4 - k,
    {
        assert(k * g <= 3 * g) by (nonlinear_arith)
            requires
                k < 4,
        ;
        let start: usize = k * g;
        let ghost before = out@;
        if start < n {
            let len: usize = if g <= n - start { g } else { n - start };
            out.push((start, len));
            proof {
                assert(group_pairs(out@) =~= group_pairs(before) + seq![(start as int, len as int)]);
                assert(group_pairs(out@) + request_groups_from(n as int, g as int, k + 1)
                    =~= group_pairs(before) + request_groups_from(n as int, g as int, k as int));
            }
        }
        k = k + 1;
    }
    proof {
        assert(group_pairs(out@) + request_groups_from(n as int, g as int, 4) =~= group_pairs(out@));
    }
    out
}

/// The answers of all `responses`, one after the other.
pub open spec fn all_data(responses: Seq<PlayerJsonResponse>) -> Seq<JsonValue>
    decreases responses.len(),
{
    if responses.len() == 0 {
        Seq::empty()
    } else {
        all_data(responses.drop_last()) + responses.last().data@
    }
}

/// The golfer picks of all `responses`, one after the other.
pub open spec fn all_eup_ids(responses: Seq<PlayerJsonResponse>) -> Seq<i64>
    decreases responses.len(),
{
    if responses.len() == 0 {
        Seq::empty()
    } else {
        all_eup_ids(responses.drop_last()) + responses.last().eup_ids@
    }
}

/// Puts the answers of the parallel requests together, in the order of the requests.
pub fn combine_responses(responses: Vec<PlayerJsonResponse>) -> (r: PlayerJsonResponse)
    ensures
        r.data@ == all_data(responses@),
        r.eup_ids@ == all_eup_ids(responses@),
{
    let ghost all = responses@;
    assert(all.len() == responses.len());
    let mut rest = responses;
    let mut data: Vec<JsonValue> = Vec::new();
    let mut eup_ids: Vec<i64> = Vec::new();
    let mut i: usize = 0;
    while rest.len() > 0
        invariant
            i + rest@.len() == all.len(),
            all.len() <= usize::MAX,
            rest@ == all.skip(i as int),
            data@ == all_data(all.take(i as int)),
            eup_ids@ == all_eup_ids(all.take(i as int)),
        decreases rest@.len(),
    {
        let mut next = rest.remove(0);
        proof {
            assert(next == all[i as int]);
            assert(all.take(i + 1).drop_last() =~= all.take(i as int));
            assert(rest@ =~= all.skip(i + 1));
        }
        data.append(&mut next.data);
        eup_ids.append(&mut next.eup_ids);
        i = i + 1;
    }
    proof {
        assert(all.take(i as int) =~= all);
    }
    PlayerJsonResponse { data, eup_ids }
}


/// The answer of the service that the body `text` holds: the JSON object it holds; `None`
/// where the text is not JSON or holds no object.
pub fn response_from_text(text: &str) -> (r: Option<JsonValue>)
    ensures
        r == (match parsed_json(text@) {
            Some(j) => if j is Object {
                Some(j)
            } else {
                None
            },
            None => None,
        }),
{
    match parse_json(text) {
        Some(j) => match j {
            JsonValue::Object(_) => Some(j),
            _ => None,
        },
        None => None,
    }
}

/// Keeps an answer of the service for golfer pick `eup_id` when it has rounds; answers
/// without a `rounds` member are dropped.
pub fn record_response(responses: &mut PlayerJsonResponse, json: JsonValue, eup_id: i64)
    ensures
        if json_get(json, "rounds"@) is Some {
            final(responses).data@ == old(responses).data@.push(json)
                && final(responses).eup_ids@ == old(responses).eup_ids@.push(eup_id)
        } else {
            final(responses).data@ == old(responses).data@ && final(responses).eup_ids@
                == old(responses).eup_ids@
        },
{
    if json.get("rounds").is_some() {
        responses.data.push(json);
        responses.eup_ids.push(eup_id);
    }
}


/// The groups follow each other without gap or overlap from pick `from` up to pick `n`,
/// and none is empty.
pub open spec fn groups_cover(groups: Seq<(int, int)>, from: int, n: int) -> bool
    decreases groups.len(),
{
    if groups.len() == 0 {
        from == n
    } else {
        groups[0].0 == from && groups[0].1 > 0 && groups_cover(groups.drop_first(), from + groups[0].1, n)
    }
}

proof fn lemma_request_groups_from_cover(n: int, g: int, k: int)
    requires
        0 <= k <= 4,
        n >= 0,
        g >= 0,
        4 * g >= n,
    ensures
        groups_cover(request_groups_from(n, g, k), if k * g < n { k * g } else { n }, n),
        forall|i: int| 0 <= i < request_groups_from(n, g, k).len() ==> #[trigger] request_groups_from(n, g, k)[i].1 <= g,
        request_groups_from(n, g, k).len() <= 4 - k,
    decreases 4 - k,
{
    assert((k + 1) * g == k * g + g) by (nonlinear_arith);
    if k == 4 {
        assert(k * g >= n) by (nonlinear_arith)
            requires
                k == 4,
                4 * g >= n,
        ;
    } else {
        lemma_request_groups_from_cover(n, g, k + 1);
        assert(k * g >= 0) by (nonlinear_arith)
            requires
                k >= 0,
                g >= 0,
        ;
        let rest = request_groups_from(n, g, k + 1);
        if k * g < n {
            let item = (k * g, if g <= n - k * g { g } else { n - k * g });
            assert(request_groups_from(n, g, k) == seq![item] + rest);
            assert((seq![item] + rest).drop_first() =~= rest);
            assert(forall|i: int| 0 < i < (seq![item] + rest).len() ==> (seq![item] + rest)[i] == rest[i - 1]);
        }
    }
}

/// The groups of the parallel requests take the golfer picks in order: together they hold
/// each pick exactly once, there are at most four, and none holds more than a quarter of
/// the picks, rounded up.
pub proof fn lemma_request_groups_cover(n: nat)
    ensures
        groups_cover(request_groups(n as int), 0, n as int),
        request_groups(n as int).len() <= 4,
        forall|i: int| 0 <= i < request_groups(n as int).len() ==> #[trigger] request_groups(n as int)[i].1
            <= request_group_size(n as int),
{
    let g = request_group_size(n as int);
    assert(4 * g >= n);
    lemma_request_groups_from_cover(n as int, g, 0);
}


fn lines_fit(lines: &[JsonValue]) -> (r: bool)
    ensures
        r == lines_readable(lines@),
{
    if lines.len() > i32::MAX as usize {
        return false;
    }
    let mut k: usize = 0;
    while k < lines.len()
        invariant
            k <= lines@.len(),
            lines@.len() <= i32::MAX,
            forall|j: int|
                0 <= j < k ==> i64::MIN <= line_par(#[trigger] lines@[j]) - line_strokes(lines@[j])
                    <= i64::MAX,
        decreases lines@.len() - k,
    {
        let ln = &lines[k];
        let par: i64 = match ln.get("par") {
            Some(p) => match p.as_i64() {
                Some(v) => v,
                None => 0,
            },
            None => 0,
        };
        let text = crate::score::trim_leading_plus(display_value_of(ln));
        let strokes: i64 = match parse_i64(text) {
            Some(v) => v,
            None => 0,
        };
        let diff = par as i128 - strokes as i128;
        if diff < i64::MIN as i128 || diff > i64::MAX as i128 {
            return false;
        }
        k = k + 1;
    }
    true
}

/// Whether one answer of the service can be read without an arithmetic overflow.
pub fn response_fit_check(resp: &JsonValue) -> (r: bool)
    ensures
        r == response_readable(*resp),
{
    let rounds = array_member(resp, "rounds");
    let ghost rs = rounds@;
    let mut i: usize = 0;
    while i < rounds.len()
        invariant
            i <= rs.len(),
            rs == rounds@,
            rs == response_rounds(*resp),
            forall|j: int| 0 <= j < i ==> lines_readable(round_lines(#[trigger] rs[j])),
        decreases rs.len() - i,
    {
        if !lines_fit(array_member(&rounds[i], "linescores")) {
            return false;
        }
        i = i + 1;
    }
    let ghost scores = round_scores_of(rs);
    let mut sum: i64 = 0;
    let mut k: usize = 0;
    while k < rounds.len()
        invariant
            k <= rs.len(),
            rs == rounds@,
            rs == response_rounds(*resp),
            scores == round_scores_of(rs),
            forall|j: int| 0 <= j < rs.len() ==> lines_readable(round_lines(#[trigger] rs[j])),
            sum == sum_of_rounds(scores.take(k as int)),
            forall|j: int| 0 <= j <= k ==> i32::MIN <= #[trigger] sum_of_rounds(scores.take(j)) <= i32::MAX,
        decreases rs.len() - k,
    {
        let v = process_round_score(display_value_of(&rounds[k]), k);
        proof {
            assert(scores.take(k + 1).drop_last() =~= scores.take(k as int));
            assert(scores.take(k + 1).last() == scores[k as int]);
        }
        sum = sum + v.val as i64;
        if sum < i32::MIN as i64 || sum > i32::MAX as i64 {
            proof {
                assert(!(i32::MIN <= sum_of_rounds(scores.take(k + 1)) <= i32::MAX));
            }
            return false;
        }
        k = k + 1;
    }
    proof {
        assert(scores.take(k as int) =~= scores);
        assert forall|j: int| 0 <= j <= scores.len() implies i32::MIN <= #[trigger] sum_of_rounds(
            scores.take(j),
        ) <= i32::MAX by {}
    }
    true
}

/// Whether every answer has a golfer pick and can be read without an arithmetic overflow.
pub fn responses_fit_check(json_responses: &PlayerJsonResponse) -> (r: bool)
    ensures
        r == responses_readable(*json_responses),
{
    if json_responses.data.len() > json_responses.eup_ids.len() {
        return false;
    }
    let mut k: usize = 0;
    while k < json_responses.data.len()
        invariant
            k <= json_responses.data@.len(),
            forall|j: int| 0 <= j < k ==> response_readable(#[trigger] json_responses.data@[j]),
        decreases json_responses.data@.len() - k,
    {
        if !response_fit_check(&json_responses.data[k]) {
            return false;
        }
        k = k + 1;
    }
    true
}


/// Putting answers together keeps answers and golfer picks in step: when every response
/// holds as many answers as picks, so does their combination.
pub proof fn lemma_combined_pairs_aligned(responses: Seq<PlayerJsonResponse>)
    requires
        forall|k: int| 0 <= k < responses.len() ==> (#[trigger] responses[k]).data@.len()
            == responses[k].eup_ids@.len(),
    ensures
        all_data(responses).len() == all_eup_ids(responses).len(),
    decreases responses.len(),
{
    if responses.len() > 0 {
        let init = responses.drop_last();
        assert forall|k: int| 0 <= k < init.len() implies (#[trigger] init[k]).data@.len()
            == init[k].eup_ids@.len() by {
            assert(init[k] == responses[k]);
        }
        lemma_combined_pairs_aligned(init);
        assert(responses.last() == responses[responses.len() - 1]);
    }
}

} // verus!
