use rusty_golf::aggregate::{
    bettor_standings, group_by_bettor_golfer_round, group_by_bettor_name_and_round,
    group_by_scores, score_data_from,
};
use rusty_golf::score::{IntStat, RefreshSource, Scores, ScoresAndLastRefresh, Statistic};

fn pick(bettor: &str, golfer: &str, eup: i64, espn: i64, group: i64, rounds: &[i32]) -> Scores {
    Scores {
        eup_id: eup,
        espn_id: espn,
        golfer_name: golfer.to_string(),
        bettor_name: bettor.to_string(),
        detailed_statistics: Statistic {
            eup_id: eup,
            rounds: (0..rounds.len() as i32).map(|v| IntStat { val: v }).collect(),
            round_scores: rounds.iter().map(|v| IntStat { val: *v }).collect(),
            tee_times: vec![],
            holes_completed_by_round: vec![],
            line_scores: vec![],
            total_score: rounds.iter().sum(),
        },
        group,
    }
}

fn sample() -> Vec<Scores> {
    vec![
        pick("Ann", "Scheffler", 1, 101, 1, &[-3, -2]),
        pick("Bob", "McIlroy", 2, 102, 1, &[1]),
        pick("Ann", "Rahm", 3, 103, 2, &[2, 0, 4]),
        pick("Bob", "Koepka", 4, 104, 2, &[]),
        pick("Ann", "Scheffler", 5, 105, 3, &[1, 1]),
    ]
}

#[test]
fn groups_are_sorted_and_keep_pick_order() {
    let groups = group_by_scores(vec![
        pick("Ann", "A", 1, 1, 3, &[]),
        pick("Bob", "B", 2, 2, 1, &[]),
        pick("Cy", "C", 3, 3, 3, &[]),
        pick("Di", "D", 4, 4, 2, &[]),
    ]);
    let keys: Vec<usize> = groups.iter().map(|g| g.0).collect();
    assert_eq!(keys, vec![1, 2, 3]);
    let third: Vec<i64> = groups[2].1.iter().map(|s| s.eup_id).collect();
    assert_eq!(third, vec![1, 3]);
    assert_eq!(groups[0].1[0].eup_id, 2);
}

#[test]
fn no_scores_no_groups() {
    assert!(group_by_scores(vec![]).is_empty());
}

#[test]
fn detailed_scores_per_golfer() {
    let d = group_by_bettor_golfer_round(&sample()).detailed_scores;
    let names: Vec<(String, String)> =
        d.iter().map(|x| (x.bettor_name.clone(), x.golfer_name.clone())).collect();
    assert_eq!(
        names,
        vec![
            ("Ann".to_string(), "Scheffler".to_string()),
            ("Ann".to_string(), "Rahm".to_string()),
            ("Bob".to_string(), "McIlroy".to_string()),
        ]
    );
    assert_eq!(d[0].rounds, vec![1, 2]);
    assert_eq!(d[0].scores, vec![-2, -1]);
    assert_eq!(d[0].golfer_espn_id, 105);
    assert_eq!(d[1].rounds, vec![1, 2, 3]);
    assert_eq!(d[1].scores, vec![2, 0, 4]);
    assert_eq!(d[2].scores, vec![1]);
}

#[test]
fn summary_per_bettor() {
    let s = group_by_bettor_name_and_round(&sample()).summary_scores;
    assert_eq!(s.len(), 2);
    assert_eq!(s[0].bettor_name, "Ann");
    assert_eq!(s[0].computed_rounds, vec![0, 1, 2]);
    assert_eq!(s[0].scores_aggregated_by_golf_grp_by_rd, vec![0, -1, 4]);
    assert_eq!(s[1].bettor_name, "Bob");
    assert_eq!(s[1].computed_rounds, vec![0]);
    assert_eq!(s[1].scores_aggregated_by_golf_grp_by_rd, vec![1]);
}

#[test]
fn summary_equals_sum_of_details() {
    let scores = sample();
    let summary = group_by_bettor_name_and_round(&scores).summary_scores;
    let details = group_by_bettor_golfer_round(&scores).detailed_scores;
    for b in &summary {
        for (k, total) in b.scores_aggregated_by_golf_grp_by_rd.iter().enumerate() {
            let sum: i32 = details
                .iter()
                .filter(|d| d.bettor_name == b.bettor_name)
                .map(|d| d.scores.get(k).copied().unwrap_or(0))
                .sum();
            assert_eq!(*total, sum as isize);
        }
    }
}

#[test]
fn standings_rank_lowest_total_first() {
    let st = bettor_standings(&[
        pick("Zed", "A", 1, 1, 1, &[-5]),
        pick("Amy", "B", 2, 2, 1, &[-5]),
        pick("Max", "C", 3, 3, 1, &[2]),
        pick("Zed", "D", 4, 4, 1, &[1]),
    ]);
    let order: Vec<(String, i32, usize, String)> = st
        .iter()
        .map(|b| {
            (
                b.bettor_name.clone(),
                b.total_score,
                b.scoreboard_position,
                b.scoreboard_position_name.clone(),
            )
        })
        .collect();
    assert_eq!(
        order,
        vec![
            ("Amy".to_string(), -5, 0, "TOP GOLFER".to_string()),
            ("Zed".to_string(), -4, 1, "FIRST LOSER".to_string()),
            ("Max".to_string(), 2, 2, "MEH".to_string()),
        ]
    );
}

#[test]
fn standings_labels_for_many_bettors() {
    let names = ["a", "b", "c", "d", "e", "f", "g"];
    let scores: Vec<Scores> =
        names.iter().enumerate().map(|(i, n)| pick(n, "G", i as i64, 0, 1, &[i as i32])).collect();
    let st = bettor_standings(&scores);
    let labels: Vec<&str> = st.iter().map(|b| b.scoreboard_position_name.as_str()).collect();
    assert_eq!(
        labels,
        vec![
            "TOP GOLFER",
            "FIRST LOSER",
            "MEH",
            "SEEN BETTER DAYS",
            "NOT A CHANCE",
            "WORST OF THE WORST",
            "WORST OF THE WORST"
        ]
    );
}

#[test]
fn score_data_keeps_scores_and_source() {
    let data = score_data_from(
        ScoresAndLastRefresh {
            score_struct: sample(),
            last_refresh_secs: 0,
            last_refresh_nanos: 0,
            last_refresh_source: RefreshSource::Espn,
        },
        "3 minutes".to_string(),
    );
    assert_eq!(data.score_struct.len(), 5);
    assert_eq!(data.last_refresh, "3 minutes");
    assert_eq!(data.last_refresh_source, RefreshSource::Espn);
    assert_eq!(data.bettor_struct[0].bettor_name, "Bob");
    assert_eq!(data.bettor_struct[0].total_score, 1);
    assert_eq!(data.bettor_struct[1].bettor_name, "Ann");
    assert_eq!(data.bettor_struct[1].total_score, 3);
}
