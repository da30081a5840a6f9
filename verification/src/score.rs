use vstd::prelude::*;

use crate::json::JsonValue;
use crate::text::{i64_text, owned, parsed_i32, parse_i32, without_leading_plus, leading_count};

verus! {

/// An integer statistic of one round.
#[derive(Clone, Copy, Debug, PartialEq, Eq, Structural)]
pub struct IntStat {
    pub val: i32,
}

/// A text statistic of one round.
#[derive(Debug, Clone)]
pub struct StringStat {
    pub val: String,
}

/// The result of one hole.
#[derive(Clone, Copy, Debug, PartialEq, Eq, Structural)]
pub struct LineScore {
    pub round: i32,
    pub hole: i32,
    pub score: i32,
    pub par: i32,
    pub score_display: ScoreDisplay,
}

/// Everything that was gathered for one golfer of one bettor in one event.
#[derive(Debug, Clone)]
pub struct Statistic {
    pub eup_id: i64,
    pub rounds: Vec<IntStat>,
    pub round_scores: Vec<IntStat>,
    pub tee_times: Vec<StringStat>,
    pub holes_completed_by_round: Vec<IntStat>,
    pub line_scores: Vec<LineScore>,
    pub total_score: i32,
}

/// One golfer picked by one bettor, with the golfer's statistics.
#[derive(Debug, Clone)]
pub struct Scores {
    pub eup_id: i64,
    pub espn_id: i64,
    pub golfer_name: String,
    pub bettor_name: String,
    pub detailed_statistics: Statistic,
    pub group: i64,
}

/// A bettor's place on the scoreboard.
#[derive(Debug, Clone)]
pub struct Bettors {
    pub bettor_name: String,
    pub total_score: i32,
    pub scoreboard_position_name: String,
    pub scoreboard_position: usize,
}

/// Where the scores on a page came from.
#[derive(Clone, Copy, Debug, PartialEq, Eq, Structural)]
pub enum RefreshSource {
    Db,
    Espn,
}

/// The scoreboard of one event.
#[derive(Debug, Clone)]
pub struct ScoreData {
    pub bettor_struct: Vec<Bettors>,
    pub score_struct: Vec<Scores>,
    pub last_refresh: String,
    pub last_refresh_source: RefreshSource,
}

/// Scores as stored, with the time of their last refresh (seconds and nanoseconds since
/// the epoch, without time zone).
#[derive(Debug, Clone)]
pub struct ScoresAndLastRefresh {
    pub score_struct: Vec<Scores>,
    pub last_refresh_secs: i64,
    pub last_refresh_nanos: u32,
    pub last_refresh_source: RefreshSource,
}

/// A scoreboard kept for later, with the time it was kept.
#[derive(Debug)]
pub struct Cache {
    pub data: Option<ScoreData>,
    pub cached_time: String,
}

/// The answers of the statistics service for some golfers: `data[i]` belongs to the
/// golfer pick `eup_ids[i]`.
#[derive(Debug)]
pub struct PlayerJsonResponse {
    pub data: Vec<JsonValue>,
    pub eup_ids: Vec<i64>,
}

/// One bettor's scores summed over all of the bettor's golfers, round by round.
#[derive(Debug, Clone)]
pub struct BettorScoreByRound {
    pub bettor_name: String,
    pub computed_rounds: Vec<isize>,
    pub scores_aggregated_by_golf_grp_by_rd: Vec<isize>,
}

#[derive(Debug, Clone)]
pub struct AllBettorScoresByRound {
    pub summary_scores: Vec<BettorScoreByRound>,
}

/// One golfer of one bettor, scores round by round.
#[derive(Debug, Clone)]
pub struct DetailedScore {
    pub bettor_name: String,
    pub golfer_name: String,
    pub golfer_espn_id: i64,
    pub rounds: Vec<i32>,
    pub scores: Vec<i32>,
}

#[derive(Debug, Clone)]
pub struct SummaryDetailedScores {
    pub detailed_scores: Vec<DetailedScore>,
}

/// Two statistics hold the same values.
pub open spec fn same_statistic(a: Statistic, b: Statistic) -> bool {
    &&& a.eup_id == b.eup_id
    &&& a.rounds@ == b.rounds@
    &&& a.round_scores@ == b.round_scores@
    &&& a.tee_times@ == b.tee_times@
    &&& a.holes_completed_by_round@ == b.holes_completed_by_round@
    &&& a.line_scores@ == b.line_scores@
    &&& a.total_score == b.total_score
}

fn copy_int_stats(v: &Vec<IntStat>) -> (r: Vec<IntStat>)
    ensures
        r@ == v@,
{
    let mut r: Vec<IntStat> = Vec::new();
    let mut i: usize = 0;
    while i < v.len()
        invariant
            i <= v@.len(),
            r@ == v@.take(i as int),
        decreases v@.len() - i,
    {
        r.push(v[i]);
        proof {
            assert(r@ =~= v@.take(i + 1));
        }
        i = i + 1;
    }
    proof {
        assert(v@.take(i as int) =~= v@);
    }
    r
}

impl StringStat {
    /// A copy of this statistic.
    pub fn duplicate(&self) -> (r: StringStat)
        ensures
            r == *self,
    {
        StringStat { val: self.val.clone() }
    }
}

impl Statistic {
    /// A copy of these statistics.
    pub fn duplicate(&self) -> (r: Statistic)
        ensures
            same_statistic(r, *self),
    {
        let mut tee_times: Vec<StringStat> = Vec::new();
        let mut i: usize = 0;
        while i < self.tee_times.len()
            invariant
                i <= self.tee_times@.len(),
                tee_times@ == self.tee_times@.take(i as int),
            decreases self.tee_times@.len() - i,
        {
            tee_times.push(self.tee_times[i].duplicate());
            proof {
                assert(tee_times@ =~= self.tee_times@.take(i + 1));
            }
            i = i + 1;
        }
        proof {
            assert(self.tee_times@.take(i as int) =~= self.tee_times@);
        }
        let mut line_scores: Vec<LineScore> = Vec::new();
        let mut j: usize = 0;
        while j < self.line_scores.len()
            invariant
                j <= self.line_scores@.len(),
                line_scores@ == self.line_scores@.take(j as int),
            decreases self.line_scores@.len() - j,
        {
            line_scores.push(self.line_scores[j]);
            proof {
                assert(line_scores@ =~= self.line_scores@.take(j + 1));
            }
            j = j + 1;
        }
        proof {
            assert(self.line_scores@.take(j as int) =~= self.line_scores@);
        }
        Statistic {
            eup_id: self.eup_id,
            rounds: copy_int_stats(&self.rounds),
            round_scores: copy_int_stats(&self.round_scores),
            tee_times,
            holes_completed_by_round: copy_int_stats(&self.holes_completed_by_round),
            line_scores,
            total_score: self.total_score,
        }
    }
}

impl RefreshSource {
    /// The words shown for the source of the scores (what `Display` writes).
    pub fn label(&self) -> (r: &'static str)
        ensures
            r@ == (match *self {
                RefreshSource::Db => "database"@,
                RefreshSource::Espn => "ESPN"@,
            }),
    {
        match self {
            RefreshSource::Db => "database",
            RefreshSource::Espn => "ESPN",
        }
    }
}

/// How a hole was played relative to par, from a player's point of view.
#[derive(Clone, Copy, Debug, PartialEq, Eq, Structural)]
pub enum ScoreDisplay {
    DoubleCondor,
    Condor,
    Albatross,
    Eagle,
    Birdie,
    Par,
    Bogey,
    DoubleBogey,
    TripleBogey,
    QuadrupleBogey,
    QuintupleBogey,
    SextupleBogey,
    SeptupleBogey,
    OctupleBogey,
    NonupleBogey,
    DodecupleBogey,
}

/// The display category of a difference between a hole's strokes and its par.
pub open spec fn score_display_of(i: int) -> ScoreDisplay {
    if i == -5 { ScoreDisplay::DoubleCondor }
    else if i == -4 { ScoreDisplay::Condor }
    else if i == -3 { ScoreDisplay::Albatross }
    else if i == -2 { ScoreDisplay::Eagle }
    else if i == -1 { ScoreDisplay::Birdie }
    else if i == 1 { ScoreDisplay::Bogey }
    else if i == 2 { ScoreDisplay::DoubleBogey }
    else if i == 3 { ScoreDisplay::TripleBogey }
    else if i == 4 { ScoreDisplay::QuadrupleBogey }
    else if i == 5 { ScoreDisplay::QuintupleBogey }
    else if i == 6 { ScoreDisplay::SextupleBogey }
    else if i == 7 { ScoreDisplay::SeptupleBogey }
    else if i == 8 { ScoreDisplay::OctupleBogey }
    else if i == 9 { ScoreDisplay::NonupleBogey }
    else if i == 10 { ScoreDisplay::DodecupleBogey }
    else { ScoreDisplay::Par }
}

impl ScoreDisplay {
    pub fn from_i32(i: i32) -> (r: Self)
        ensures
            r == score_display_of(i as int),
    {
        match i {
            -5 => ScoreDisplay::DoubleCondor,
            -4 => ScoreDisplay::Condor,
            -3 => ScoreDisplay::Albatross,
            -2 => ScoreDisplay::Eagle,
            -1 => ScoreDisplay::Birdie,
            1 => ScoreDisplay::Bogey,
            2 => ScoreDisplay::DoubleBogey,
            3 => ScoreDisplay::TripleBogey,
            4 => ScoreDisplay::QuadrupleBogey,
            5 => ScoreDisplay::QuintupleBogey,
            6 => ScoreDisplay::SextupleBogey,
            7 => ScoreDisplay::SeptupleBogey,
            8 => ScoreDisplay::OctupleBogey,
            9 => ScoreDisplay::NonupleBogey,
            10 => ScoreDisplay::DodecupleBogey,
            _ => ScoreDisplay::Par,
        }
    }
}


/// `s` without its last character (unchanged when empty).
pub open spec fn without_last_char(s: Seq<char>) -> Seq<char> {
    if s.len() == 0 {
        s
    } else {
        s.drop_last()
    }
}

/// Removes the last character of a string, as `String::pop` does on a copy.
pub fn take_a_char_off(s: &str) -> (r: String)
    ensures
        r@ == without_last_char(s@),
{
    let n = s.unicode_len();
    if n == 0 {
        owned(s)
    } else {
        let front = s.substring_char(0, n - 1);
        proof {
            assert(front@ =~= s@.drop_last());
        }
        owned(front)
    }
}

/// The sum of the round scores, as an integer.
pub open spec fn sum_of_rounds(rounds: Seq<IntStat>) -> int
    decreases rounds.len(),
{
    if rounds.len() == 0 {
        0
    } else {
        sum_of_rounds(rounds.drop_last()) + rounds.last().val as int
    }
}

/// Every running sum of the round scores fits in an `i32`.
pub open spec fn running_sums_fit(rounds: Seq<IntStat>) -> bool {
    forall|k: int| 0 <= k <= rounds.len() ==> i32::MIN <= #[trigger] sum_of_rounds(rounds.take(k)) <= i32::MAX
}

/// The total of a golfer's round scores.
pub fn calculate_total_score(round_scores: &[IntStat]) -> (r: i32)
    requires
        running_sums_fit(round_scores@),
    ensures
        r == sum_of_rounds(round_scores@),
{
    let mut total: i32 = 0;
    let mut i: usize = 0;
    while i < round_scores.len()
        invariant
            i <= round_scores@.len(),
            running_sums_fit(round_scores@),
            total == sum_of_rounds(round_scores@.take(i as int)),
        decreases round_scores@.len() - i,
    {
        proof {
            assert(round_scores@.take(i + 1).drop_last() =~= round_scores@.take(i as int));
            assert(i32::MIN <= sum_of_rounds(round_scores@.take(i + 1)) <= i32::MAX);
        }
        total = total + round_scores[i].val;
        i = i + 1;
    }
    proof {
        assert(round_scores@.take(i as int) =~= round_scores@);
    }
    total
}

/// The score read from a round's display text: leading `+` signs dropped, then an `i32`,
/// and 0 when there is none.
pub open spec fn round_score_value(display: Seq<char>) -> i32 {
    match parsed_i32(without_leading_plus(display)) {
        Some(v) => v,
        None => 0,
    }
}

/// Drops the leading `+` signs of `s` (`str::trim_start_matches('+')`).
pub fn trim_leading_plus(s: &str) -> (r: &str)
    ensures
        r@ == without_leading_plus(s@),
{
    let n = s.unicode_len();
    let mut i: usize = 0;
    while i < n && s.get_char(i) == '+'
        invariant
            i <= n,
            n == s@.len(),
            forall|k: int| 0 <= k < i ==> s@[k] == '+',
        decreases n - i,
    {
        i = i + 1;
    }
    proof {
        lemma_leading_plus_count(s@, i as int);
    }
    let r = s.substring_char(i, n);
    proof {
        assert(r@ =~= s@.skip(i as int));
    }
    r
}

proof fn lemma_leading_plus_count(s: Seq<char>, i: int)
    requires
        0 <= i <= s.len(),
        forall|k: int| 0 <= k < i ==> s[k] == '+',
        i == s.len() || s[i] != '+',
    ensures
        leading_count(s, |c: char| c == '+') == i,
    decreases i,
{
    if i > 0 {
        lemma_leading_plus_count(s.drop_first(), i - 1);
    }
}

/// The score of a round, read from its display text such as `"+3"`, `"-2"` or `"E"`.
pub fn process_round_score(display_value: &str, _round_index: usize) -> (r: IntStat)
    ensures
        r.val == round_score_value(display_value@),
{
    let trimmed = trim_leading_plus(display_value);
    match parse_i32(trimmed) {
        Some(v) => IntStat { val: v },
        None => IntStat { val: 0 },
    }
}

/// How long ago something happened, as the score page shows it. A `Fraction` is shown as
/// `secs / unit_secs` with two decimals, followed by `unit`.
#[derive(Debug)]
pub enum TimeAgo {
    Text(String),
    Fraction { secs: i64, unit_secs: i64, unit: &'static str },
}

pub open spec fn count_text(n: int, one: Seq<char>, many: Seq<char>) -> Seq<char> {
    if n == 1 {
        one
    } else {
        crate::text::decimal_text(n) + many
    }
}

/// The text for an elapsed time of `secs` seconds: the largest unit that fits, whole units
/// from weeks down, fractional years and months (a 365-day year, a 30-day month).
pub open spec fn time_ago(secs: int) -> (Option<Seq<char>>, int, Seq<char>) {
    if secs >= 31536000 {
        if secs == 31536000 {
            (Some("1 year"@), 0, Seq::empty())
        } else {
            (None, 31536000, "years"@)
        }
    } else if secs >= 2592000 {
        (None, 2592000, "months"@)
    } else if secs >= 604800 {
        (Some(count_text(secs / 604800, "1 week"@, " weeks"@)), 0, Seq::empty())
    } else if secs >= 86400 {
        (Some(count_text(secs / 86400, "1 day"@, " days"@)), 0, Seq::empty())
    } else if secs >= 3600 {
        (Some(count_text(secs / 3600, "1 hour"@, " hours"@)), 0, Seq::empty())
    } else if secs >= 60 {
        (Some(count_text(secs / 60, "1 minute"@, " minutes"@)), 0, Seq::empty())
    } else {
        (Some(count_text(secs, "1 second"@, " seconds"@)), 0, Seq::empty())
    }
}

pub open spec fn time_ago_view(t: TimeAgo) -> (Option<Seq<char>>, int, Seq<char>) {
    match t {
        TimeAgo::Text(s) => (Some(s@), 0, Seq::empty()),
        TimeAgo::Fraction { secs: _, unit_secs, unit } => (None, unit_secs as int, unit@),
    }
}

fn count_words(n: i64, one: &str, many: &str) -> (r: String)
    ensures
        r@ == count_text(n as int, one@, many@),
{
    if n == 1 {
        owned(one)
    } else {
        i64_text(n).concat(many)
    }
}

/// The text for how long ago the scores were refreshed, given the elapsed seconds.
pub fn time_ago_for_score_view(secs: i64) -> (r: TimeAgo)
    ensures
        time_ago_view(r) == time_ago(secs as int),
        r matches TimeAgo::Fraction { secs: s, .. } ==> s == secs,
{
    if secs >= 31536000 {
        if secs == 31536000 {
            TimeAgo::Text(owned("1 year"))
        } else {
            TimeAgo::Fraction { secs, unit_secs: 31536000, unit: "years" }
        }
    } else if secs >= 2592000 {
        TimeAgo::Fraction { secs, unit_secs: 2592000, unit: "months" }
    } else if secs >= 604800 {
        TimeAgo::Text(count_words(secs / 604800, "1 week", " weeks"))
    } else if secs >= 86400 {
        TimeAgo::Text(count_words(secs / 86400, "1 day", " days"))
    } else if secs >= 3600 {
        TimeAgo::Text(count_words(secs / 3600, "1 hour", " hours"))
    } else if secs >= 60 {
        TimeAgo::Text(count_words(secs / 60, "1 minute", " minutes"))
    } else {
        TimeAgo::Text(count_words(secs, "1 second", " seconds"))
    }
}

} // verus!
