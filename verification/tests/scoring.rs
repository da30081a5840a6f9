use rusty_golf::score::{
    calculate_total_score, process_round_score, take_a_char_off, time_ago_for_score_view,
    IntStat, RefreshSource, ScoreDisplay, Statistic, StringStat, TimeAgo, LineScore,
};
use rusty_golf::text::{parse_i32, parse_i64, trim_text};

fn stats(vals: &[i32]) -> Vec<IntStat> {
    vals.iter().map(|v| IntStat { val: *v }).collect()
}

#[test]
fn score_display_from_each_difference() {
    assert_eq!(ScoreDisplay::from_i32(-5), ScoreDisplay::DoubleCondor);
    assert_eq!(ScoreDisplay::from_i32(-4), ScoreDisplay::Condor);
    assert_eq!(ScoreDisplay::from_i32(-3), ScoreDisplay::Albatross);
    assert_eq!(ScoreDisplay::from_i32(-2), ScoreDisplay::Eagle);
    assert_eq!(ScoreDisplay::from_i32(-1), ScoreDisplay::Birdie);
    assert_eq!(ScoreDisplay::from_i32(0), ScoreDisplay::Par);
    assert_eq!(ScoreDisplay::from_i32(1), ScoreDisplay::Bogey);
    assert_eq!(ScoreDisplay::from_i32(2), ScoreDisplay::DoubleBogey);
    assert_eq!(ScoreDisplay::from_i32(3), ScoreDisplay::TripleBogey);
    assert_eq!(ScoreDisplay::from_i32(4), ScoreDisplay::QuadrupleBogey);
    assert_eq!(ScoreDisplay::from_i32(5), ScoreDisplay::QuintupleBogey);
    assert_eq!(ScoreDisplay::from_i32(6), ScoreDisplay::SextupleBogey);
    assert_eq!(ScoreDisplay::from_i32(7), ScoreDisplay::SeptupleBogey);
    assert_eq!(ScoreDisplay::from_i32(8), ScoreDisplay::OctupleBogey);
    assert_eq!(ScoreDisplay::from_i32(9), ScoreDisplay::NonupleBogey);
    assert_eq!(ScoreDisplay::from_i32(10), ScoreDisplay::DodecupleBogey);
}

#[test]
fn score_display_out_of_range_is_par() {
    assert_eq!(ScoreDisplay::from_i32(11), ScoreDisplay::Par);
    assert_eq!(ScoreDisplay::from_i32(-6), ScoreDisplay::Par);
    assert_eq!(ScoreDisplay::from_i32(i32::MAX), ScoreDisplay::Par);
    assert_eq!(ScoreDisplay::from_i32(i32::MIN), ScoreDisplay::Par);
}

#[test]
fn take_a_char_off_removes_last_character() {
    assert_eq!(take_a_char_off("1:12pm"), "1:12p");
    assert_eq!(take_a_char_off("a"), "");
    assert_eq!(take_a_char_off(""), "");
    assert_eq!(take_a_char_off("héé"), "hé");
}

#[test]
fn total_score_sums_rounds() {
    assert_eq!(calculate_total_score(&stats(&[-3, 2, 0, -1])), -2);
    assert_eq!(calculate_total_score(&stats(&[])), 0);
    assert_eq!(calculate_total_score(&stats(&[70, 71])), 141);
}

#[test]
fn round_score_reads_display_text() {
    assert_eq!(process_round_score("+3", 0).val, 3);
    assert_eq!(process_round_score("-2", 1).val, -2);
    assert_eq!(process_round_score("E", 2).val, 0);
    assert_eq!(process_round_score("", 0).val, 0);
    assert_eq!(process_round_score("++4", 0).val, 4);
    assert_eq!(process_round_score("+-4", 0).val, -4);
    assert_eq!(process_round_score("99999999999", 0).val, 0);
}

#[test]
fn integer_parsing_follows_rust_syntax() {
    assert_eq!(parse_i32("42"), Some(42));
    assert_eq!(parse_i32("+42"), Some(42));
    assert_eq!(parse_i32("-2147483648"), Some(i32::MIN));
    assert_eq!(parse_i32("2147483647"), Some(i32::MAX));
    assert_eq!(parse_i32("2147483648"), None);
    assert_eq!(parse_i32(" 1"), None);
    assert_eq!(parse_i32("-"), None);
    assert_eq!(parse_i32(""), None);
    assert_eq!(parse_i64("-9223372036854775808"), Some(i64::MIN));
    assert_eq!(parse_i64("9223372036854775808"), None);
    assert_eq!(parse_i64("12a"), None);
}

#[test]
fn trimming_drops_unicode_white_space() {
    assert_eq!(trim_text("  18 \t\n"), "18");
    assert_eq!(trim_text("\u{3000}x\u{a0}"), "x");
    assert_eq!(trim_text("   "), "");
    assert_eq!(trim_text("a b"), "a b");
}

fn time_text(t: TimeAgo) -> String {
    match t {
        TimeAgo::Text(s) => s,
        TimeAgo::Fraction { secs, unit_secs, unit } => format!("{secs}/{unit_secs} {unit}"),
    }
}

#[test]
fn time_ago_picks_the_largest_unit() {
    assert_eq!(time_text(time_ago_for_score_view(0)), "0 seconds");
    assert_eq!(time_text(time_ago_for_score_view(1)), "1 second");
    assert_eq!(time_text(time_ago_for_score_view(59)), "59 seconds");
    assert_eq!(time_text(time_ago_for_score_view(60)), "1 minute");
    assert_eq!(time_text(time_ago_for_score_view(150)), "2 minutes");
    assert_eq!(time_text(time_ago_for_score_view(3600)), "1 hour");
    assert_eq!(time_text(time_ago_for_score_view(7300)), "2 hours");
    assert_eq!(time_text(time_ago_for_score_view(86400)), "1 day");
    assert_eq!(time_text(time_ago_for_score_view(3 * 86400)), "3 days");
    assert_eq!(time_text(time_ago_for_score_view(604800)), "1 week");
    assert_eq!(time_text(time_ago_for_score_view(3 * 604800)), "3 weeks");
    assert_eq!(time_text(time_ago_for_score_view(31536000)), "1 year");
    assert_eq!(time_text(time_ago_for_score_view(-5)), "-5 seconds");
}

#[test]
fn time_ago_fractions_for_months_and_years() {
    assert_eq!(time_text(time_ago_for_score_view(2592000)), "2592000/2592000 months");
    assert_eq!(time_text(time_ago_for_score_view(40000000)), "40000000/31536000 years");
}

#[test]
fn refresh_source_labels() {
    assert_eq!(RefreshSource::Db.label(), "database");
    assert_eq!(RefreshSource::Espn.label(), "ESPN");
}

#[test]
fn statistic_duplicate_keeps_every_field() {
    let st = Statistic {
        eup_id: 7,
        rounds: stats(&[0, 1]),
        round_scores: stats(&[-1, 2]),
        tee_times: vec![StringStat { val: "5/16 1:12p".to_string() }],
        holes_completed_by_round: stats(&[18, 36]),
        line_scores: vec![LineScore {
            round: 0,
            hole: 1,
            score: 4,
            par: 4,
            score_display: ScoreDisplay::Par,
        }],
        total_score: 1,
    };
    let copy = st.duplicate();
    assert_eq!(copy.eup_id, 7);
    assert_eq!(copy.round_scores.len(), 2);
    assert_eq!(copy.round_scores[1].val, 2);
    assert_eq!(copy.tee_times[0].val, "5/16 1:12p");
    assert_eq!(copy.holes_completed_by_round[1].val, 36);
    assert_eq!(copy.line_scores[0], st.line_scores[0]);
    assert_eq!(copy.total_score, 1);
}
