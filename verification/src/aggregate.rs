use vstd::prelude::*;

use crate::score::{
    AllBettorScoresByRound, BettorScoreByRound, Bettors, DetailedScore, ScoreData, Scores,
    ScoresAndLastRefresh, SummaryDetailedScores,
};
use crate::text::{
    lemma_text_lt_asymmetric, lemma_text_lt_irreflexive, lemma_text_lt_total,
    lemma_text_lt_transitive, owned, str_less, text_lt,
};

verus! {

broadcast use vstd::seq_lib::group_seq_properties;

/// The group under which a golfer pick is shown (its group number read as a `usize`).
pub open spec fn group_key(s: Scores) -> usize {
    s.group as usize
}

pub open spec fn in_group(k: usize) -> spec_fn(Scores) -> bool {
    |s: Scores| group_key(s) == k
}

/// `groups` lists each group of `scores` once, in ascending order of the group number,
/// each with exactly the picks of that group in the order in which they were given.
pub open spec fn is_grouping(groups: Seq<(usize, Vec<Scores>)>, scores: Seq<Scores>) -> bool {
    &&& forall|i: int, j: int| 0 <= i < j < groups.len() ==> groups[i].0 < groups[j].0
    &&& forall|i: int|
        0 <= i < groups.len() ==> (#[trigger] groups[i]).1@ == scores.filter(in_group(groups[i].0))
            && groups[i].1@.len() > 0
    &&& forall|t: int|
        0 <= t < scores.len() ==> exists|i: int|
            0 <= i < groups.len() && (#[trigger] groups[i]).0 == group_key(#[trigger] scores[t])
}

proof fn lemma_filter_empty_when_absent(scores: Seq<Scores>, k: usize)
    requires
        forall|t: int| 0 <= t < scores.len() ==> group_key(#[trigger] scores[t]) != k,
    ensures
        scores.filter(in_group(k)) =~= Seq::<Scores>::empty(),
    decreases scores.len(),
{
    reveal(Seq::filter);
    if scores.len() > 0 {
        assert forall|t: int| 0 <= t < scores.drop_last().len() implies group_key(
            #[trigger] scores.drop_last()[t],
        ) != k by {
            assert(scores.drop_last()[t] == scores[t]);
        }
        lemma_filter_empty_when_absent(scores.drop_last(), k);
        assert(group_key(scores[scores.len() - 1]) != k);
    }
}

/// Groups the golfer picks by their group number, groups in ascending order.
pub fn group_by_scores(scores: Vec<Scores>) -> (r: Vec<(usize, Vec<Scores>)>)
    ensures
        is_grouping(r@, scores@),
{
    let ghost all = scores@;
    let mut rest = scores;
    let mut groups: Vec<(usize, Vec<Scores>)> = Vec::new();
    let ghost mut done: Seq<Scores> = Seq::empty();
    while rest.len() > 0
        invariant
            done + rest@ == all,
            is_grouping(groups@, done),
        decreases rest.len(),
    {
        let ghost before = groups@;
        let s = rest.remove(0);
        let key = #[verifier::truncate] (s.group as usize);
        let ghost next = done.push(s);
        proof {
            assert(next + rest@ =~= all);
        }
        // find the first group whose key is not below `key`
        let mut j: usize = 0;
        while j < groups.len() && groups[j].0 < key
            invariant
                j <= groups.len(),
                groups@ == before,
                forall|i: int| 0 <= i < j ==> groups@[i].0 < key,
            decreases groups.len() - j,
        {
            j = j + 1;
        }
        if j < groups.len() && groups[j].0 == key {
            let (k, mut members) = groups.remove(j);
            members.push(s);
            groups.insert(j, (k, members));
            proof {
                assert(groups@ =~= before.update(j as int, (k, members)));
                assert forall|i: int| 0 <= i < groups@.len() && i != j implies groups@[i]
                    == before[i] by {}
                assert(groups@[j as int].0 == before[j as int].0);
                assert forall|i: int| 0 <= i < groups@.len() implies (#[trigger] groups@[i]).1@
                    == next.filter(in_group(groups@[i].0)) && groups@[i].1@.len() > 0 by {
                    done.lemma_filter_push(s, in_group(groups@[i].0));
                }
                assert forall|t: int| 0 <= t < next.len() implies exists|i: int|
                    0 <= i < groups@.len() && (#[trigger] groups@[i]).0 == group_key(
                        #[trigger] next[t],
                    ) by {
                    if t < done.len() {
                        assert(next[t] == done[t]);
                        let i = choose|i: int|
                            0 <= i < before.len() && (#[trigger] before[i]).0 == group_key(done[t]);
                        assert(groups@[i].0 == before[i].0);
                    } else {
                        assert(groups@[j as int].0 == group_key(next[t]));
                    }
                }
            }
        } else {
            let mut members: Vec<Scores> = Vec::new();
            members.push(s);
            groups.insert(j, (key, members));
            proof {
                before.insert_ensures(j as int, groups@[j as int]);
                assert(groups@ == before.insert(j as int, groups@[j as int]));
                assert forall|t: int| 0 <= t < done.len() implies group_key(#[trigger] done[t])
                    != key by {
                    let i = choose|i: int|
                        0 <= i < before.len() && (#[trigger] before[i]).0 == group_key(done[t]);
                    if i < j {
                    } else {
                        assert(before[i].0 >= before[j as int].0 || i == j);
                    }
                }
                lemma_filter_empty_when_absent(done, key);
                assert forall|i: int| 0 <= i < groups@.len() implies (#[trigger] groups@[i]).1@
                    == next.filter(in_group(groups@[i].0)) && groups@[i].1@.len() > 0 by {
                    done.lemma_filter_push(s, in_group(groups@[i].0));
                    if i == j {
                        assert(groups@[i].1@ =~= seq![s]);
                        assert(Seq::<Scores>::empty().push(s) =~= seq![s]);
                    }
                }
                assert forall|a: int, b: int| 0 <= a < b < groups@.len() implies groups@[a].0
                    < groups@[b].0 by {
                    if a < j && b > j {
                        assert(before[a].0 < key);
                    }
                }
                assert forall|t: int| 0 <= t < next.len() implies exists|i: int|
                    0 <= i < groups@.len() && (#[trigger] groups@[i]).0 == group_key(
                        #[trigger] next[t],
                    ) by {
                    if t < done.len() {
                        assert(next[t] == done[t]);
                        let i = choose|i: int|
                            0 <= i < before.len() && (#[trigger] before[i]).0 == group_key(done[t]);
                        if i < j {
                            assert(groups@[i] == before[i]);
                        } else {
                            assert(groups@[i + 1] == before[i]);
                        }
                    } else {
                        assert(groups@[j as int].0 == group_key(next[t]));
                    }
                }
            }
        }
        assert(is_grouping(groups@, next));
        proof {
            done = next;
        }
    }
    proof {
        assert(done =~= all);
    }
    groups
}


/// The round scores recorded for a golfer pick.
pub open spec fn round_values(s: Scores) -> Seq<crate::score::IntStat> {
    s.detailed_statistics.round_scores@
}

/// Whether pick `s` belongs to bettor `b` (and, when `g` is given, to golfer `g`).
pub open spec fn counts_for(s: Scores, b: Seq<char>, g: Option<Seq<char>>) -> bool {
    &&& s.bettor_name@ == b
    &&& match g {
        Some(g) => s.golfer_name@ == g,
        None => true,
    }
}

/// The bettors of `scores`, each once, in the order of their first pick.
pub open spec fn bettor_order(scores: Seq<Scores>) -> Seq<Seq<char>>
    decreases scores.len(),
{
    if scores.len() == 0 {
        Seq::empty()
    } else {
        let before = bettor_order(scores.drop_last());
        let b = scores.last().bettor_name@;
        if before.contains(b) {
            before
        } else {
            before.push(b)
        }
    }
}

/// The golfers that bettor `b` picked, each once, in the order of their first pick.
pub open spec fn golfer_order(scores: Seq<Scores>, b: Seq<char>) -> Seq<Seq<char>>
    decreases scores.len(),
{
    if scores.len() == 0 {
        Seq::empty()
    } else {
        let before = golfer_order(scores.drop_last(), b);
        let g = scores.last().golfer_name@;
        if scores.last().bettor_name@ == b && !before.contains(g) {
            before.push(g)
        } else {
            before
        }
    }
}

/// The number of rounds recorded: the most rounds of any pick that counts.
pub open spec fn rounds_played(scores: Seq<Scores>, b: Seq<char>, g: Option<Seq<char>>) -> nat
    decreases scores.len(),
{
    if scores.len() == 0 {
        0
    } else {
        let before = rounds_played(scores.drop_last(), b, g);
        let s = scores.last();
        if counts_for(s, b, g) && round_values(s).len() > before {
            round_values(s).len()
        } else {
            before
        }
    }
}

/// The sum of round `r` (counted from 0) over the picks that count and have that round.
pub open spec fn round_total(scores: Seq<Scores>, b: Seq<char>, g: Option<Seq<char>>, r: int) -> int
    decreases scores.len(),
{
    if scores.len() == 0 {
        0
    } else {
        let s = scores.last();
        round_total(scores.drop_last(), b, g, r) + if counts_for(s, b, g) && 0 <= r
            < round_values(s).len() {
            round_values(s)[r].val as int
        } else {
            0
        }
    }
}

/// The statistics-service id of the last pick of golfer `g` by bettor `b`, 0 when there is none.
pub open spec fn last_espn_id(scores: Seq<Scores>, b: Seq<char>, g: Seq<char>) -> i64
    decreases scores.len(),
{
    if scores.len() == 0 {
        0
    } else if counts_for(scores.last(), b, Some(g)) {
        scores.last().espn_id
    } else {
        last_espn_id(scores.drop_last(), b, g)
    }
}

/// The sum of the total scores of bettor `b`'s picks.
pub open spec fn bettor_total(scores: Seq<Scores>, b: Seq<char>) -> int
    decreases scores.len(),
{
    if scores.len() == 0 {
        0
    } else {
        bettor_total(scores.drop_last(), b) + if scores.last().bettor_name@ == b {
            scores.last().detailed_statistics.total_score as int
        } else {
            0
        }
    }
}

/// Facts about a step of the prefix recursion used by the loops below.
proof fn lemma_take_step<A>(s: Seq<A>, i: int)
    requires
        0 <= i < s.len(),
    ensures
        s.take(i + 1).drop_last() =~= s.take(i),
        s.take(i + 1).last() == s[i],
        s.take(i + 1).len() == i + 1,
{
}

/// The texts of a list of strings.
pub open spec fn texts(v: Seq<String>) -> Seq<Seq<char>> {
    v.map_values(|n: String| n@)
}

/// Whether two names are equal.
fn same_name(a: &String, b: &String) -> (r: bool)
    ensures
        r == (a@ == b@),
{
    *a == *b
}

fn contains_name(names: &Vec<String>, name: &String) -> (r: bool)
    ensures
        r == texts(names@).contains(name@),
{
    let mut i: usize = 0;
    while i < names.len()
        invariant
            i <= names.len(),
            forall|k: int| 0 <= k < i ==> names@[k]@ != name@,
        decreases names.len() - i,
    {
        if same_name(&names[i], name) {
            assert(texts(names@)[i as int] == name@);
            return true;
        }
        i = i + 1;
    }
    proof {
        if texts(names@).contains(name@) {
            let k = choose|k: int| 0 <= k < names@.len() && #[trigger] texts(names@)[k] == name@;
            assert(names@[k]@ == name@);
        }
    }
    false
}

fn push_name(names: &mut Vec<String>, name: &String)
    ensures
        texts(final(names)@) == texts(old(names)@).push(name@),
{
    names.push(owned(name.as_str()));
    proof {
        assert(texts(final(names)@) =~= texts(old(names)@).push(name@));
    }
}

/// The bettors, each once, in the order of their first pick.
pub fn bettor_names_in_order(scores: &[Scores]) -> (r: Vec<String>)
    ensures
        texts(r@) == bettor_order(scores@),
{
    let mut names: Vec<String> = Vec::new();
    let mut i: usize = 0;
    while i < scores.len()
        invariant
            i <= scores@.len(),
            texts(names@) == bettor_order(scores@.take(i as int)),
        decreases scores@.len() - i,
    {
        proof {
            lemma_take_step(scores@, i as int);
        }
        if !contains_name(&names, &scores[i].bettor_name) {
            push_name(&mut names, &scores[i].bettor_name);
        }
        i = i + 1;
    }
    proof {
        assert(scores@.take(scores@.len() as int) =~= scores@);
    }
    names
}

/// The golfers that bettor `bettor` picked, each once, in the order of their first pick.
pub fn golfer_names_in_order(scores: &[Scores], bettor: &String) -> (r: Vec<String>)
    ensures
        texts(r@) == golfer_order(scores@, bettor@),
{
    let mut names: Vec<String> = Vec::new();
    let mut i: usize = 0;
    while i < scores.len()
        invariant
            i <= scores@.len(),
            texts(names@) == golfer_order(scores@.take(i as int), bettor@),
        decreases scores@.len() - i,
    {
        proof {
            lemma_take_step(scores@, i as int);
        }
        if same_name(&scores[i].bettor_name, bettor) && !contains_name(
            &names,
            &scores[i].golfer_name,
        ) {
            push_name(&mut names, &scores[i].golfer_name);
        }
        i = i + 1;
    }
    proof {
        assert(scores@.take(scores@.len() as int) =~= scores@);
    }
    names
}


/// The view of an optional golfer name.
pub open spec fn opt_text(g: Option<&String>) -> Option<Seq<char>> {
    match g {
        Some(g) => Some(g@),
        None => None,
    }
}

proof fn lemma_round_total_beyond(scores: Seq<Scores>, b: Seq<char>, g: Option<Seq<char>>, r: int)
    requires
        r >= rounds_played(scores, b, g),
    ensures
        round_total(scores, b, g, r) == 0,
    decreases scores.len(),
{
    if scores.len() > 0 {
        lemma_round_total_beyond(scores.drop_last(), b, g, r);
    }
}

/// The round sums of the picks that count, round by round, before any narrowing.
fn round_sums(scores: &[Scores], bettor: &String, golfer: Option<&String>) -> (r: Vec<i128>)
    ensures
        r@.len() == rounds_played(scores@, bettor@, opt_text(golfer)),
        forall|k: int| 0 <= k < r@.len() ==> r@[k] == round_total(scores@, bettor@, opt_text(golfer), k),
{
    let ghost g = opt_text(golfer);
    let mut sums: Vec<i128> = Vec::new();
    let mut i: usize = 0;
    while i < scores.len()
        invariant
            i <= scores@.len(),
            g == opt_text(golfer),
            sums@.len() == rounds_played(scores@.take(i as int), bettor@, g),
            forall|k: int| 0 <= k < sums@.len() ==> sums@[k] == round_total(scores@.take(i as int), bettor@, g, k),
            forall|k: int| 0 <= k < sums@.len() ==> -(i as int) * 0x8000_0000 <= #[trigger] sums@[k] <= (i as int) * 0x8000_0000,
        decreases scores@.len() - i,
    {
        proof {
            lemma_take_step(scores@, i as int);
        }
        let pick = &scores[i];
        let counts = same_name(&pick.bettor_name, bettor) && match golfer {
            Some(gn) => same_name(&pick.golfer_name, gn),
            None => true,
        };
        let ghost prev = sums@;
        if counts {
            let rs = &pick.detailed_statistics.round_scores;
            let mut k: usize = 0;
            while k < rs.len()
                invariant
                    k <= rs@.len(),
                    rs@ == round_values(scores@[i as int]),
                    i < scores@.len(),
                    sums@.len() == if k <= prev.len() { prev.len() } else { k as nat },
                    forall|j: int| 0 <= j < sums@.len() ==> sums@[j] == (if j < prev.len() { prev[j] as int } else { 0 }) + (if j < k { rs@[j].val as int } else { 0 }),
                    forall|j: int| 0 <= j < prev.len() ==> -(i as int) * 0x8000_0000 <= #[trigger] prev[j] <= (i as int) * 0x8000_0000,
                decreases rs@.len() - k,
            {
                let v = rs[k].val as i128;
                if k < sums.len() {
                    let cur = sums[k];
                    sums.set(k, cur + v);
                } else {
                    sums.push(v);
                }
                k = k + 1;
            }
            proof {
                let t = scores@.take(i + 1);
                assert forall|j: int| 0 <= j < sums@.len() implies sums@[j] == round_total(t, bettor@, g, j) by {
                    if j >= prev.len() {
                        lemma_round_total_beyond(scores@.take(i as int), bettor@, g, j);
                    }
                }
            }
        }
        proof {
            let t = scores@.take(i + 1);
            assert(sums@.len() == rounds_played(t, bettor@, g));
            assert forall|j: int| 0 <= j < sums@.len() implies sums@[j] == round_total(t, bettor@, g, j) by {
                if !counts {
                    assert(sums@ == prev);
                }
            }
            assert forall|j: int| 0 <= j < sums@.len() implies -((i + 1) as int) * 0x8000_0000 <= #[trigger] sums@[j] <= ((i + 1) as int) * 0x8000_0000 by {
                if j < prev.len() {
                    assert(-(i as int) * 0x8000_0000 <= prev[j] <= (i as int) * 0x8000_0000);
                }
            }
        }
        i = i + 1;
    }
    proof {
        assert(scores@.take(scores@.len() as int) =~= scores@);
    }
    sums
}


/// No pick records more rounds than an `i32` round number can count.
pub open spec fn round_counts_fit(scores: Seq<Scores>) -> bool {
    forall|t: int| 0 <= t < scores.len() ==> round_values(#[trigger] scores[t]).len() < i32::MAX
}

/// Each golfer's round sums fit in an `i32`.
pub open spec fn golfer_round_totals_fit(scores: Seq<Scores>) -> bool {
    forall|b: Seq<char>, g: Seq<char>, r: int|
        0 <= r < rounds_played(scores, b, Some(g)) ==> i32::MIN <= #[trigger] round_total(
            scores,
            b,
            Some(g),
            r,
        ) <= i32::MAX
}

/// Each bettor's round sums fit in an `isize`.
pub open spec fn bettor_round_totals_fit(scores: Seq<Scores>) -> bool {
    forall|b: Seq<char>, r: int|
        0 <= r < rounds_played(scores, b, None) ==> isize::MIN <= #[trigger] round_total(
            scores,
            b,
            None,
            r,
        ) <= isize::MAX
}

/// What a detailed score holds: bettor, golfer, golfer id, round numbers, round sums.
pub open spec fn detailed_view(d: DetailedScore) -> (Seq<char>, Seq<char>, i64, Seq<i32>, Seq<i32>) {
    (d.bettor_name@, d.golfer_name@, d.golfer_espn_id, d.rounds@, d.scores@)
}

/// The detailed score of golfer `g` of bettor `b`: rounds numbered from 1.
pub open spec fn expected_detail(scores: Seq<Scores>, b: Seq<char>, g: Seq<char>) -> (
    Seq<char>,
    Seq<char>,
    i64,
    Seq<i32>,
    Seq<i32>,
) {
    let m = rounds_played(scores, b, Some(g));
    (
        b,
        g,
        last_espn_id(scores, b, g),
        Seq::new(m, |k: int| (k + 1) as i32),
        Seq::new(m, |k: int| round_total(scores, b, Some(g), k) as i32),
    )
}

/// The detailed scores of bettor `b`'s golfers `gs` that have at least one round.
pub open spec fn golfer_details(scores: Seq<Scores>, b: Seq<char>, gs: Seq<Seq<char>>) -> Seq<
    (Seq<char>, Seq<char>, i64, Seq<i32>, Seq<i32>),
>
    decreases gs.len(),
{
    if gs.len() == 0 {
        Seq::empty()
    } else {
        let before = golfer_details(scores, b, gs.drop_last());
        if rounds_played(scores, b, Some(gs.last())) > 0 {
            before.push(expected_detail(scores, b, gs.last()))
        } else {
            before
        }
    }
}

/// The detailed scores of bettors `bs`, bettor after bettor, each bettor's golfers in the
/// order of their first pick.
pub open spec fn all_details(scores: Seq<Scores>, bs: Seq<Seq<char>>) -> Seq<
    (Seq<char>, Seq<char>, i64, Seq<i32>, Seq<i32>),
>
    decreases bs.len(),
{
    if bs.len() == 0 {
        Seq::empty()
    } else {
        all_details(scores, bs.drop_last()) + golfer_details(
            scores,
            bs.last(),
            golfer_order(scores, bs.last()),
        )
    }
}

fn last_espn_id_of(scores: &[Scores], bettor: &String, golfer: &String) -> (r: i64)
    ensures
        r == last_espn_id(scores@, bettor@, golfer@),
{
    let mut i: usize = scores.len();
    while i > 0
        invariant
            i <= scores@.len(),
            last_espn_id(scores@, bettor@, golfer@) == last_espn_id(scores@.take(i as int), bettor@, golfer@),
        decreases i,
    {
        proof {
            lemma_take_step(scores@, i - 1);
        }
        if same_name(&scores[i - 1].bettor_name, bettor) && same_name(&scores[i - 1].golfer_name, golfer) {
            return scores[i - 1].espn_id;
        }
        i = i - 1;
    }
    0
}

fn detailed_score_of(scores: &[Scores], bettor: &String, golfer: &String) -> (r: DetailedScore)
    requires
        golfer_round_totals_fit(scores@),
        round_counts_fit(scores@),
    ensures
        detailed_view(r) == expected_detail(scores@, bettor@, golfer@),
{
    let sums = round_sums(scores, bettor, Some(golfer));
    let ghost m = rounds_played(scores@, bettor@, Some(golfer@));
    proof {
        lemma_rounds_played_bounded(scores@, bettor@, Some(golfer@));
    }
    let mut rounds: Vec<i32> = Vec::new();
    let mut totals: Vec<i32> = Vec::new();
    let mut k: usize = 0;
    while k < sums.len()
        invariant
            k <= sums@.len(),
            sums@.len() == m,
            m < i32::MAX,
            m == rounds_played(scores@, bettor@, Some(golfer@)),
            golfer_round_totals_fit(scores@),
            forall|j: int| 0 <= j < sums@.len() ==> sums@[j] == round_total(scores@, bettor@, Some(golfer@), j),
            rounds@ == Seq::new(k as nat, |j: int| (j + 1) as i32),
            totals@ == Seq::new(k as nat, |j: int| round_total(scores@, bettor@, Some(golfer@), j) as i32),
        decreases sums@.len() - k,
    {
        assert(i32::MIN <= round_total(scores@, bettor@, Some(golfer@), k as int) <= i32::MAX);
        rounds.push((k + 1) as i32);
        totals.push(sums[k] as i32);
        proof {
            assert(rounds@ =~= Seq::new((k + 1) as nat, |j: int| (j + 1) as i32));
            assert(totals@ =~= Seq::new((k + 1) as nat, |j: int| round_total(scores@, bettor@, Some(golfer@), j) as i32));
        }
        k = k + 1;
    }
    DetailedScore {
        bettor_name: owned(bettor.as_str()),
        golfer_name: owned(golfer.as_str()),
        golfer_espn_id: last_espn_id_of(scores, bettor, golfer),
        rounds,
        scores: totals,
    }
}

proof fn lemma_rounds_played_bounded(scores: Seq<Scores>, b: Seq<char>, g: Option<Seq<char>>)
    requires
        round_counts_fit(scores),
    ensures
        rounds_played(scores, b, g) < i32::MAX,
    decreases scores.len(),
{
    if scores.len() > 0 {
        assert(round_counts_fit(scores.drop_last())) by {
            assert forall|t: int| 0 <= t < scores.drop_last().len() implies round_values(
                #[trigger] scores.drop_last()[t],
            ).len() < i32::MAX by {
                assert(scores.drop_last()[t] == scores[t]);
            }
        }
        lemma_rounds_played_bounded(scores.drop_last(), b, g);
        assert(round_values(scores[scores.len() - 1]).len() < i32::MAX);
    }
}

/// Round-by-round sums for each golfer of each bettor: bettors in the order of their first
/// pick, each bettor's golfers in the order of their first pick, golfers without any round
/// left out, rounds numbered from 1.
pub fn group_by_bettor_golfer_round(scores: &[Scores]) -> (r: SummaryDetailedScores)
    requires
        golfer_round_totals_fit(scores@),
        round_counts_fit(scores@),
    ensures
        r.detailed_scores@.map_values(|d: DetailedScore| detailed_view(d)) == all_details(
            scores@,
            bettor_order(scores@),
        ),
{
    let bettors = bettor_names_in_order(scores);
    let ghost bs = texts(bettors@);
    let mut out: Vec<DetailedScore> = Vec::new();
    let mut i: usize = 0;
    while i < bettors.len()
        invariant
            i <= bettors@.len(),
            bs == texts(bettors@),
            golfer_round_totals_fit(scores@),
            round_counts_fit(scores@),
            out@.map_values(|d: DetailedScore| detailed_view(d)) == all_details(scores@, bs.take(i as int)),
        decreases bettors@.len() - i,
    {
        let bettor = &bettors[i];
        proof {
            lemma_take_step(bs, i as int);
            assert(bs[i as int] == bettor@);
        }
        let golfers = golfer_names_in_order(scores, bettor);
        let ghost gs = texts(golfers@);
        let ghost before = out@.map_values(|d: DetailedScore| detailed_view(d));
        let mut j: usize = 0;
        while j < golfers.len()
            invariant
                j <= golfers@.len(),
                gs == texts(golfers@),
                gs == golfer_order(scores@, bettor@),
                golfer_round_totals_fit(scores@),
                round_counts_fit(scores@),
                out@.map_values(|d: DetailedScore| detailed_view(d)) == before + golfer_details(scores@, bettor@, gs.take(j as int)),
            decreases golfers@.len() - j,
        {
            proof {
                lemma_take_step(gs, j as int);
                assert(gs[j as int] == golfers@[j as int]@);
            }
            let golfer = &golfers[j];
            let d = detailed_score_of(scores, bettor, golfer);
            let ghost dv = detailed_view(d);
            let ghost old_out = out@;
            if d.rounds.len() > 0 {
                out.push(d);
                proof {
                    assert(out@.map_values(|d: DetailedScore| detailed_view(d)) =~= old_out.map_values(
                        |d: DetailedScore| detailed_view(d),
                    ).push(dv));
                }
            }
            proof {
                assert(gs.take(j + 1).last() == golfer@);
                assert(out@.map_values(|d: DetailedScore| detailed_view(d)) =~= before + golfer_details(scores@, bettor@, gs.take(j + 1)));
            }
            j = j + 1;
        }
        proof {
            assert(gs.take(gs.len() as int) =~= gs);
            assert(out@.map_values(|d: DetailedScore| detailed_view(d)) =~= all_details(scores@, bs.take(i + 1)));
        }
        i = i + 1;
    }
    proof {
        assert(bs.take(bs.len() as int) =~= bs);
    }
    SummaryDetailedScores { detailed_scores: out }
}

/// What a bettor's round summary holds: bettor, round indexes, round sums.
pub open spec fn summary_view(b: BettorScoreByRound) -> (Seq<char>, Seq<isize>, Seq<isize>) {
    (b.bettor_name@, b.computed_rounds@, b.scores_aggregated_by_golf_grp_by_rd@)
}

/// The round summary of bettor `b`: round indexes counted from 0, with the sum over all of
/// the bettor's golfers.
pub open spec fn expected_summary(scores: Seq<Scores>, b: Seq<char>) -> (Seq<char>, Seq<isize>, Seq<isize>) {
    let m = rounds_played(scores, b, None);
    (b, Seq::new(m, |k: int| k as isize), Seq::new(m, |k: int| round_total(scores, b, None, k) as isize))
}

/// No pick of bettor `b` has more rounds than `rounds_played` counts for `b`.
proof fn lemma_rounds_played_covers(scores: Seq<Scores>, b: Seq<char>, j: int)
    requires
        0 <= j < scores.len(),
        scores[j].bettor_name@ == b,
    ensures
        round_values(scores[j]).len() <= rounds_played(scores, b, None),
    decreases scores.len(),
{
    if j < scores.len() - 1 {
        lemma_rounds_played_covers(scores.drop_last(), b, j);
        assert(scores.drop_last()[j] == scores[j]);
    }
}

/// When bettor `b` has played a round, some pick of `b` has exactly `rounds_played` rounds.
proof fn lemma_rounds_played_attained(scores: Seq<Scores>, b: Seq<char>)
    ensures
        rounds_played(scores, b, None) > 0 ==> exists|j: int|
            0 <= j < scores.len() && scores[j].bettor_name@ == b && round_values(scores[j]).len()
                == rounds_played(scores, b, None),
    decreases scores.len(),
{
    if scores.len() > 0 {
        let before = scores.drop_last();
        lemma_rounds_played_attained(before, b);
        let n = scores.len() - 1;
        if counts_for(scores[n], b, None) && round_values(scores[n]).len() > rounds_played(before, b, None) {
            assert(scores[n].bettor_name@ == b);
        } else if rounds_played(before, b, None) > 0 {
            let j = choose|j: int|
                0 <= j < before.len() && before[j].bettor_name@ == b && round_values(before[j]).len()
                    == rounds_played(before, b, None);
            assert(scores[j] == before[j]);
        }
    }
}

/// Each bettor's round summary runs over every round that any of the bettor's picks
/// played, and no further: its rounds are numbered 0, 1, ... up to the most rounds of any of
/// the bettor's picks (no pick has more, and one has exactly that many), and round `k`
/// holds the sum of round `k` over the bettor's picks that played it.
pub proof fn lemma_summary_covers_all_rounds(
    scores: Seq<Scores>,
    summary: Seq<(Seq<char>, Seq<isize>, Seq<isize>)>,
    i: int,
)
    requires
        bettor_round_totals_fit(scores),
        round_counts_fit(scores),
        summary == bettor_order(scores).map_values(|b: Seq<char>| expected_summary(scores, b)),
        0 <= i < summary.len(),
    ensures
        summary[i].1.len() == summary[i].2.len(),
        forall|j: int|
            0 <= j < scores.len() && (#[trigger] scores[j]).bettor_name@ == summary[i].0
                ==> round_values(scores[j]).len() <= summary[i].1.len(),
        summary[i].1.len() > 0 ==> exists|j: int|
            0 <= j < scores.len() && (#[trigger] scores[j]).bettor_name@ == summary[i].0
                && round_values(scores[j]).len() == summary[i].1.len(),
        forall|k: int| 0 <= k < summary[i].1.len() ==> #[trigger] summary[i].1[k] == k,
        forall|k: int|
            0 <= k < summary[i].2.len() ==> #[trigger] summary[i].2[k] == round_total(
                scores,
                summary[i].0,
                None,
                k,
            ),
{
    let b = bettor_order(scores)[i];
    assert(summary[i] == expected_summary(scores, b));
    assert forall|j: int|
        0 <= j < scores.len() && (#[trigger] scores[j]).bettor_name@ == summary[i].0
            implies round_values(scores[j]).len() <= summary[i].1.len() by {
        lemma_rounds_played_covers(scores, b, j);
    }
    lemma_rounds_played_attained(scores, b);
    if rounds_played(scores, b, None) > 0 {
        let j = choose|j: int|
            0 <= j < scores.len() && scores[j].bettor_name@ == b && round_values(scores[j]).len()
                == rounds_played(scores, b, None);
        assert(round_values(scores[j]).len() < i32::MAX);
    }
    assert forall|k: int| 0 <= k < summary[i].1.len() implies #[trigger] summary[i].1[k] == k by {
        assert(k < i32::MAX);
    }
    assert forall|k: int| 0 <= k < summary[i].2.len() implies #[trigger] summary[i].2[k] == round_total(
        scores,
        summary[i].0,
        None,
        k,
    ) by {
        assert(isize::MIN <= round_total(scores, b, None, k) <= isize::MAX);
    }
}

/// Round-by-round sums for each bettor over all of the bettor's golfers, bettors in the
/// order of their first pick, rounds indexed from 0.
pub fn group_by_bettor_name_and_round(scores: &[Scores]) -> (r: AllBettorScoresByRound)
    requires
        bettor_round_totals_fit(scores@),
        round_counts_fit(scores@),
    ensures
        r.summary_scores@.map_values(|b: BettorScoreByRound| summary_view(b))
            == bettor_order(scores@).map_values(|b: Seq<char>| expected_summary(scores@, b)),
{
    let bettors = bettor_names_in_order(scores);
    let ghost bs = texts(bettors@);
    let mut out: Vec<BettorScoreByRound> = Vec::new();
    let mut i: usize = 0;
    while i < bettors.len()
        invariant
            i <= bettors@.len(),
            bs == texts(bettors@),
            bettor_round_totals_fit(scores@),
            round_counts_fit(scores@),
            out@.map_values(|b: BettorScoreByRound| summary_view(b)) == bs.take(i as int).map_values(
                |b: Seq<char>| expected_summary(scores@, b),
            ),
        decreases bettors@.len() - i,
    {
        let bettor = &bettors[i];
        let sums = round_sums(scores, bettor, None);
        let ghost m = rounds_played(scores@, bettor@, None);
        proof {
            lemma_rounds_played_bounded(scores@, bettor@, None);
        }
        let mut rounds: Vec<isize> = Vec::new();
        let mut totals: Vec<isize> = Vec::new();
        let mut k: usize = 0;
        while k < sums.len()
            invariant
                k <= sums@.len(),
                sums@.len() == m,
                m < i32::MAX,
                m == rounds_played(scores@, bettor@, None),
                bettor_round_totals_fit(scores@),
                forall|j: int| 0 <= j < sums@.len() ==> sums@[j] == round_total(scores@, bettor@, None, j),
                rounds@ == Seq::new(k as nat, |j: int| j as isize),
                totals@ == Seq::new(k as nat, |j: int| round_total(scores@, bettor@, None, j) as isize),
            decreases sums@.len() - k,
        {
            assert(isize::MIN <= round_total(scores@, bettor@, None, k as int) <= isize::MAX);
            rounds.push(k as isize);
            totals.push(sums[k] as isize);
            proof {
                assert(rounds@ =~= Seq::new((k + 1) as nat, |j: int| j as isize));
                assert(totals@ =~= Seq::new((k + 1) as nat, |j: int| round_total(scores@, bettor@, None, j) as isize));
            }
            k = k + 1;
        }
        let ghost old_out = out@;
        let entry = BettorScoreByRound {
            bettor_name: owned(bettor.as_str()),
            computed_rounds: rounds,
            scores_aggregated_by_golf_grp_by_rd: totals,
        };
        let ghost ev = summary_view(entry);
        out.push(entry);
        proof {
            lemma_take_step(bs, i as int);
            assert(bs[i as int] == bettor@);
            assert(ev == expected_summary(scores@, bettor@));
            assert(out@.map_values(|b: BettorScoreByRound| summary_view(b)) =~= old_out.map_values(
                |b: BettorScoreByRound| summary_view(b),
            ).push(ev));
            assert(out@.map_values(|b: BettorScoreByRound| summary_view(b)) =~= bs.take(i + 1).map_values(
                |b: Seq<char>| expected_summary(scores@, b),
            ));
        }
        i = i + 1;
    }
    proof {
        assert(bs.take(bs.len() as int) =~= bs);
    }
    AllBettorScoresByRound { summary_scores: out }
}


/// Every bettor's sum of total scores fits in an `i32`.
pub open spec fn bettor_totals_fit(scores: Seq<Scores>) -> bool {
    forall|b: Seq<char>| i32::MIN <= #[trigger] bettor_total(scores, b) <= i32::MAX
}

/// The label of a place on the scoreboard, counted from 0.
pub open spec fn position_label(i: int) -> Seq<char> {
    if i == 0 {
        "TOP GOLFER"@
    } else if i == 1 {
        "FIRST LOSER"@
    } else if i == 2 {
        "MEH"@
    } else if i == 3 {
        "SEEN BETTER DAYS"@
    } else if i == 4 {
        "NOT A CHANCE"@
    } else {
        "WORST OF THE WORST"@
    }
}

/// Standing `a` is ahead of standing `b`: a lower total, or the same total and a name that
/// sorts first.
pub open spec fn ranks_before(a: Bettors, b: Bettors) -> bool {
    a.total_score < b.total_score || (a.total_score == b.total_score && text_lt(
        a.bettor_name@,
        b.bettor_name@,
    ))
}

/// `standings` holds exactly the bettors of `scores`, each once with the sum of the
/// totals of the bettor's picks, in scoreboard order.
pub open spec fn is_standings(standings: Seq<Bettors>, scores: Seq<Scores>) -> bool {
    &&& standings.len() == bettor_order(scores).len()
    &&& forall|i: int, j: int|
        0 <= i < j < standings.len() ==> ranks_before(#[trigger] standings[i], #[trigger] standings[j])
    &&& forall|i: int|
        0 <= i < standings.len() ==> bettor_order(scores).contains((#[trigger] standings[i]).bettor_name@)
            && standings[i].total_score == bettor_total(scores, standings[i].bettor_name@)
    &&& forall|b: Seq<char>|
        bettor_order(scores).contains(b) ==> exists|i: int|
            0 <= i < standings.len() && (#[trigger] standings[i]).bettor_name@ == b
}

proof fn lemma_bettor_order_distinct(scores: Seq<Scores>)
    ensures
        bettor_order(scores).no_duplicates(),
    decreases scores.len(),
{
    if scores.len() > 0 {
        lemma_bettor_order_distinct(scores.drop_last());
    }
}

fn bettor_total_of(scores: &[Scores], bettor: &String) -> (r: i128)
    ensures
        r == bettor_total(scores@, bettor@),
{
    let mut sum: i128 = 0;
    let mut i: usize = 0;
    while i < scores.len()
        invariant
            i <= scores@.len(),
            sum == bettor_total(scores@.take(i as int), bettor@),
            -(i as int) * 0x8000_0000 <= sum <= (i as int) * 0x8000_0000,
        decreases scores@.len() - i,
    {
        proof {
            lemma_take_step(scores@, i as int);
        }
        if same_name(&scores[i].bettor_name, bettor) {
            sum = sum + scores[i].detailed_statistics.total_score as i128;
        }
        i = i + 1;
    }
    proof {
        assert(scores@.take(scores@.len() as int) =~= scores@);
    }
    sum
}

/// Whether standing `a` is ahead of standing `b`.
fn ahead_of(a: &Bettors, b: &Bettors) -> (r: bool)
    ensures
        r == ranks_before(*a, *b),
{
    a.total_score < b.total_score || (a.total_score == b.total_score && str_less(
        a.bettor_name.as_str(),
        b.bettor_name.as_str(),
    ))
}

proof fn lemma_ranks_total(a: Bettors, b: Bettors)
    requires
        a.bettor_name@ != b.bettor_name@,
    ensures
        ranks_before(a, b) || ranks_before(b, a),
{
    lemma_text_lt_total(a.bettor_name@, b.bettor_name@);
}

proof fn lemma_ranks_transitive(a: Bettors, b: Bettors, c: Bettors)
    requires
        ranks_before(a, b),
        ranks_before(b, c),
    ensures
        ranks_before(a, c),
{
    if a.total_score == b.total_score && b.total_score == c.total_score {
        lemma_text_lt_transitive(a.bettor_name@, b.bettor_name@, c.bettor_name@);
    }
}

/// The scoreboard: each bettor once with the sum of the totals of the bettor's picks,
/// lowest sum first (ties by name), each labelled with its place.
pub fn bettor_standings(scores: &[Scores]) -> (r: Vec<Bettors>)
    requires
        bettor_totals_fit(scores@),
    ensures
        is_standings(r@, scores@),
        forall|i: int|
            0 <= i < r@.len() ==> (#[trigger] r@[i]).scoreboard_position == i
                && r@[i].scoreboard_position_name@ == position_label(i),
{
    let names = bettor_names_in_order(scores);
    let ghost bs = texts(names@);
    proof {
        lemma_bettor_order_distinct(scores@);
    }
    let mut sorted: Vec<Bettors> = Vec::new();
    let mut i: usize = 0;
    while i < names.len()
        invariant
            i <= names@.len(),
            bs == texts(names@),
            bs == bettor_order(scores@),
            bs.no_duplicates(),
            bettor_totals_fit(scores@),
            sorted@.len() == i,
            forall|a: int, b: int|
                0 <= a < b < sorted@.len() ==> ranks_before(#[trigger] sorted@[a], #[trigger] sorted@[b]),
            forall|a: int|
                0 <= a < sorted@.len() ==> bs.take(i as int).contains((#[trigger] sorted@[a]).bettor_name@)
                    && sorted@[a].total_score == bettor_total(scores@, sorted@[a].bettor_name@),
            forall|b: Seq<char>|
                bs.take(i as int).contains(b) ==> exists|a: int|
                    0 <= a < sorted@.len() && (#[trigger] sorted@[a]).bettor_name@ == b,
        decreases names@.len() - i,
    {
        let total = bettor_total_of(scores, &names[i]);
        assert(i32::MIN <= bettor_total(scores@, names@[i as int]@) <= i32::MAX);
        let entry = Bettors {
            bettor_name: owned(names[i].as_str()),
            total_score: total as i32,
            scoreboard_position_name: String::new(),
            scoreboard_position: 0,
        };
        proof {
            lemma_take_step(bs, i as int);
            assert(bs[i as int] == entry.bettor_name@);
            assert forall|a: int| 0 <= a < sorted@.len() implies sorted@[a].bettor_name@
                != entry.bettor_name@ by {
                let k = choose|k: int| 0 <= k < i && #[trigger] bs.take(i as int)[k] == sorted@[a].bettor_name@;
                assert(bs[k] == bs.take(i as int)[k]);
            }
        }
        let mut p: usize = 0;
        while p < sorted.len() && !ahead_of(&entry, &sorted[p])
            invariant
                p <= sorted@.len(),
                forall|a: int| 0 <= a < p ==> ranks_before(sorted@[a], entry),
                forall|a: int| 0 <= a < sorted@.len() ==> sorted@[a].bettor_name@ != entry.bettor_name@,
            decreases sorted@.len() - p,
        {
            proof {
                lemma_ranks_total(sorted@[p as int], entry);
            }
            p = p + 1;
        }
        let ghost before = sorted@;
        let ghost ev = entry;
        sorted.insert(p, entry);
        proof {
            before.insert_ensures(p as int, ev);
            assert(sorted@ == before.insert(p as int, ev));
            assert forall|a: int, b: int| 0 <= a < b < sorted@.len() implies ranks_before(
                #[trigger] sorted@[a],
                #[trigger] sorted@[b],
            ) by {
                if b < p {
                } else if a < p && b == p {
                } else if a < p && b > p {
                    if p < before.len() {
                        assert(ranks_before(ev, before[p as int]));
                        if b - 1 > p {
                            assert(ranks_before(before[p as int], before[b - 1]));
                            lemma_ranks_transitive(ev, before[p as int], before[b - 1]);
                        }
                        lemma_ranks_transitive(before[a], ev, before[b - 1]);
                    }
                } else if a == p {
                    assert(ranks_before(ev, before[p as int]));
                    if b - 1 > p {
                        assert(ranks_before(before[p as int], before[b - 1]));
                        lemma_ranks_transitive(ev, before[p as int], before[b - 1]);
                    }
                } else {
                    assert(sorted@[a] == before[a - 1]);
                    assert(sorted@[b] == before[b - 1]);
                }
            }
            assert forall|a: int| 0 <= a < sorted@.len() implies bs.take(i + 1).contains(
                (#[trigger] sorted@[a]).bettor_name@,
            ) && sorted@[a].total_score == bettor_total(scores@, sorted@[a].bettor_name@) by {
                if a == p {
                    assert(bs.take(i + 1)[i as int] == ev.bettor_name@);
                } else {
                    let old_a = if a < p { a } else { a - 1 };
                    assert(sorted@[a] == before[old_a]);
                    let k = choose|k: int|
                        0 <= k < i && #[trigger] bs.take(i as int)[k] == before[old_a].bettor_name@;
                    assert(bs.take(i + 1)[k] == bs.take(i as int)[k]);
                }
            }
            assert forall|b: Seq<char>| #[trigger] bs.take(i + 1).contains(b) implies exists|a: int|
                0 <= a < sorted@.len() && (#[trigger] sorted@[a]).bettor_name@ == b by {
                let k = choose|k: int| 0 <= k < i + 1 && #[trigger] bs.take(i + 1)[k] == b;
                if k == i {
                    assert(sorted@[p as int].bettor_name@ == b);
                } else {
                    assert(bs.take(i as int)[k] == b);
                    assert(bs.take(i as int).contains(b));
                    let a = choose|a: int| 0 <= a < before.len() && (#[trigger] before[a]).bettor_name@ == b;
                    if a < p {
                        assert(sorted@[a] == before[a]);
                    } else {
                        assert(sorted@[a + 1] == before[a]);
                    }
                }
            }
        }
        i = i + 1;
    }
    proof {
        assert(bs.take(bs.len() as int) =~= bs);
    }
    let ghost ranked = sorted@;
    assert(is_standings(ranked, scores@));
    let mut k: usize = 0;
    while k < sorted.len()
        invariant
            k <= sorted@.len(),
            is_standings(ranked, scores@),
            sorted@.len() == ranked.len(),
            forall|a: int|
                0 <= a < ranked.len() ==> (#[trigger] sorted@[a]).bettor_name@ == ranked[a].bettor_name@
                    && sorted@[a].total_score == ranked[a].total_score,
            forall|a: int|
                0 <= a < k ==> (#[trigger] sorted@[a]).scoreboard_position == a
                    && sorted@[a].scoreboard_position_name@ == position_label(a),
        decreases sorted@.len() - k,
    {
        let label = if k == 0 {
            "TOP GOLFER"
        } else if k == 1 {
            "FIRST LOSER"
        } else if k == 2 {
            "MEH"
        } else if k == 3 {
            "SEEN BETTER DAYS"
        } else if k == 4 {
            "NOT A CHANCE"
        } else {
            "WORST OF THE WORST"
        };
        let old = sorted.remove(k);
        let updated = Bettors {
            bettor_name: old.bettor_name,
            total_score: old.total_score,
            scoreboard_position_name: owned(label),
            scoreboard_position: k,
        };
        sorted.insert(k, updated);
        k = k + 1;
    }
    proof {
        assert forall|a: int, b: int| 0 <= a < b < sorted@.len() implies ranks_before(
            #[trigger] sorted@[a],
            #[trigger] sorted@[b],
        ) by {
            assert(ranks_before(ranked[a], ranked[b]));
        }
        assert forall|b: Seq<char>| bettor_order(scores@).contains(b) implies exists|a: int|
            0 <= a < sorted@.len() && (#[trigger] sorted@[a]).bettor_name@ == b by {
            let a = choose|a: int| 0 <= a < ranked.len() && (#[trigger] ranked[a]).bettor_name@ == b;
            assert(sorted@[a].bettor_name@ == b);
        }
        assert forall|a: int| 0 <= a < sorted@.len() implies bettor_order(scores@).contains(
            (#[trigger] sorted@[a]).bettor_name@,
        ) && sorted@[a].total_score == bettor_total(scores@, sorted@[a].bettor_name@) by {
            assert(bettor_order(scores@).contains(ranked[a].bettor_name@));
        }
    }
    sorted
}


/// On the scoreboard a lower total always stands first, and of two bettors with the same
/// total the one whose name comes first in `str` order stands first: for places `i < j`,
/// the total at `i` is at most that at `j`, and when the totals are equal the name at `i`
/// sorts before the name at `j` and not after it.
pub proof fn lemma_standings_ties_by_name(standings: Seq<Bettors>, scores: Seq<Scores>, i: int, j: int)
    requires
        is_standings(standings, scores),
        0 <= i < j < standings.len(),
    ensures
        standings[i].total_score <= standings[j].total_score,
        standings[i].total_score == standings[j].total_score ==> text_lt(
            standings[i].bettor_name@,
            standings[j].bettor_name@,
        ),
        standings[i].total_score == standings[j].total_score ==> !text_lt(
            standings[j].bettor_name@,
            standings[i].bettor_name@,
        ),
{
    assert(ranks_before(standings[i], standings[j]));
    if standings[i].total_score == standings[j].total_score {
        lemma_text_lt_asymmetric(standings[i].bettor_name@, standings[j].bettor_name@);
    }
}

/// The scoreboard of an event from its stored scores: the standings of the bettors, the
/// scores as stored, the text for how long ago they were refreshed, and their source.
pub fn score_data_from(scores: ScoresAndLastRefresh, last_refresh: String) -> (r: ScoreData)
    requires
        bettor_totals_fit(scores.score_struct@),
    ensures
        is_standings(r.bettor_struct@, scores.score_struct@),
        forall|i: int|
            0 <= i < r.bettor_struct@.len() ==> (#[trigger] r.bettor_struct@[i]).scoreboard_position
                == i && r.bettor_struct@[i].scoreboard_position_name@ == position_label(i),
        r.score_struct == scores.score_struct,
        r.last_refresh == last_refresh,
        r.last_refresh_source == scores.last_refresh_source,
{
    let standings = bettor_standings(scores.score_struct.as_slice());
    ScoreData {
        bettor_struct: standings,
        score_struct: scores.score_struct,
        last_refresh,
        last_refresh_source: scores.last_refresh_source,
    }
}


/// The sum, over the golfers `gs`, of bettor `b`'s round `r` with that golfer.
pub open spec fn golfers_round_sum(scores: Seq<Scores>, b: Seq<char>, gs: Seq<Seq<char>>, r: int) -> int
    decreases gs.len(),
{
    if gs.len() == 0 {
        0
    } else {
        golfers_round_sum(scores, b, gs.drop_last(), r) + round_total(scores, b, Some(gs.last()), r)
    }
}

proof fn lemma_golfer_order_distinct(scores: Seq<Scores>, b: Seq<char>)
    ensures
        golfer_order(scores, b).no_duplicates(),
    decreases scores.len(),
{
    if scores.len() > 0 {
        lemma_golfer_order_distinct(scores.drop_last(), b);
    }
}

proof fn lemma_round_total_unpicked(scores: Seq<Scores>, b: Seq<char>, g: Seq<char>, r: int)
    requires
        !golfer_order(scores, b).contains(g),
    ensures
        round_total(scores, b, Some(g), r) == 0,
    decreases scores.len(),
{
    if scores.len() > 0 {
        let s = scores.last();
        let before = golfer_order(scores.drop_last(), b);
        if s.bettor_name@ == b && !before.contains(s.golfer_name@) {
            assert(golfer_order(scores, b) == before.push(s.golfer_name@));
            assert(golfer_order(scores, b)[before.len() as int] == s.golfer_name@);
        }
        assert forall|i: int| 0 <= i < before.len() implies before[i] != g by {
            if s.bettor_name@ == b && !before.contains(s.golfer_name@) {
                assert(golfer_order(scores, b)[i] == before[i]);
            }
        }
        lemma_round_total_unpicked(scores.drop_last(), b, g, r);
    }
}

/// Adding one pick to the scores raises the per-golfer sum over distinct golfers `gs` by
/// the pick's round value when its golfer is among `gs`.
proof fn lemma_golfers_round_sum_step(scores: Seq<Scores>, b: Seq<char>, gs: Seq<Seq<char>>, r: int)
    requires
        scores.len() > 0,
        gs.no_duplicates(),
    ensures
        golfers_round_sum(scores, b, gs, r) == golfers_round_sum(scores.drop_last(), b, gs, r) + if scores.last().bettor_name@ == b
            && gs.contains(scores.last().golfer_name@) && 0 <= r < round_values(scores.last()).len() {
            round_values(scores.last())[r].val as int
        } else {
            0
        },
    decreases gs.len(),
{
    if gs.len() > 0 {
        let init = gs.drop_last();
        assert(init.no_duplicates()) by {
            assert forall|i: int, j: int| 0 <= i < init.len() && 0 <= j < init.len() && i != j implies init[i] != init[j] by {
                assert(init[i] == gs[i] && init[j] == gs[j]);
            }
        }
        lemma_golfers_round_sum_step(scores, b, init, r);
        let g = scores.last().golfer_name@;
        if gs.contains(g) {
            if gs.last() == g {
                assert forall|i: int| 0 <= i < init.len() implies init[i] != g by {
                    assert(gs[i] == init[i]);
                    assert(gs[gs.len() - 1] == g);
                }
            } else {
                let k = choose|k: int| 0 <= k < gs.len() && gs[k] == g;
                assert(init[k] == g);
            }
        } else {
            assert forall|i: int| 0 <= i < init.len() implies init[i] != g by {
                assert(gs[i] == init[i]);
            }
        }
    }
}

/// A bettor's round total is the sum, over the bettor's golfers, of the golfer's round
/// total: the summary of a bettor agrees with the bettor's detailed scores.
pub proof fn lemma_summary_is_sum_of_details(scores: Seq<Scores>, b: Seq<char>, r: int)
    ensures
        round_total(scores, b, None, r) == golfers_round_sum(scores, b, golfer_order(scores, b), r),
    decreases scores.len(),
{
    if scores.len() > 0 {
        let s0 = scores.drop_last();
        let x = scores.last();
        let before = golfer_order(s0, b);
        lemma_summary_is_sum_of_details(s0, b, r);
        lemma_golfer_order_distinct(s0, b);
        lemma_golfer_order_distinct(scores, b);
        lemma_golfers_round_sum_step(scores, b, before, r);
        if x.bettor_name@ == b && !before.contains(x.golfer_name@) {
            assert(golfer_order(scores, b) == before.push(x.golfer_name@));
            assert(golfer_order(scores, b).drop_last() =~= before);
            lemma_round_total_unpicked(s0, b, x.golfer_name@, r);
        }
    }
}


proof fn lemma_unpicked_bettor(scores: Seq<Scores>, b: Seq<char>, g: Option<Seq<char>>)
    requires
        !bettor_order(scores).contains(b),
    ensures
        rounds_played(scores, b, g) == 0,
        bettor_total(scores, b) == 0,
    decreases scores.len(),
{
    if scores.len() > 0 {
        let before = bettor_order(scores.drop_last());
        assert(!before.contains(b)) by {
            if before.contains(b) {
                let k = choose|k: int| 0 <= k < before.len() && before[k] == b;
                if !before.contains(scores.last().bettor_name@) {
                    assert(bettor_order(scores)[k] == b);
                }
            }
        }
        if scores.last().bettor_name@ == b {
            if before.contains(b) {
            } else {
                assert(bettor_order(scores)[before.len() as int] == b);
            }
        }
        lemma_unpicked_bettor(scores.drop_last(), b, g);
    }
}

proof fn lemma_unpicked_golfer(scores: Seq<Scores>, b: Seq<char>, g: Seq<char>)
    requires
        !golfer_order(scores, b).contains(g),
    ensures
        rounds_played(scores, b, Some(g)) == 0,
    decreases scores.len(),
{
    if scores.len() > 0 {
        let s = scores.last();
        let before = golfer_order(scores.drop_last(), b);
        let grew = s.bettor_name@ == b && !before.contains(s.golfer_name@);
        assert(!before.contains(g)) by {
            if before.contains(g) {
                let k = choose|k: int| 0 <= k < before.len() && before[k] == g;
                if grew {
                    assert(golfer_order(scores, b)[k] == g);
                } else {
                    assert(golfer_order(scores, b)[k] == g);
                }
            }
        }
        if counts_for(s, b, Some(g)) {
            if grew {
                assert(golfer_order(scores, b)[before.len() as int] == g);
            }
        }
        lemma_unpicked_golfer(scores.drop_last(), b, g);
    }
}

/// Whether every bettor's sum of total scores fits in an `i32` (what the standings need).
pub fn bettor_totals_fit_check(scores: &[Scores]) -> (r: bool)
    ensures
        r == bettor_totals_fit(scores@),
{
    let names = bettor_names_in_order(scores);
    let ghost bs = texts(names@);
    let mut i: usize = 0;
    while i < names.len()
        invariant
            i <= names@.len(),
            bs == texts(names@),
            bs == bettor_order(scores@),
            forall|k: int| 0 <= k < i ==> i32::MIN <= #[trigger] bettor_total(scores@, bs[k]) <= i32::MAX,
        decreases names@.len() - i,
    {
        let t = bettor_total_of(scores, &names[i]);
        if t < i32::MIN as i128 || t > i32::MAX as i128 {
            proof {
                assert(bs[i as int] == names@[i as int]@);
            }
            return false;
        }
        proof {
            assert(bs[i as int] == names@[i as int]@);
        }
        i = i + 1;
    }
    proof {
        assert forall|b: Seq<char>| i32::MIN <= #[trigger] bettor_total(scores@, b) <= i32::MAX by {
            if bs.contains(b) {
                let k = choose|k: int| 0 <= k < bs.len() && bs[k] == b;
            } else {
                lemma_unpicked_bettor(scores@, b, None);
            }
        }
    }
    true
}

fn round_counts_fit_check(scores: &[Scores]) -> (r: bool)
    ensures
        r == round_counts_fit(scores@),
{
    let mut i: usize = 0;
    while i < scores.len()
        invariant
            i <= scores@.len(),
            forall|t: int| 0 <= t < i ==> round_values(#[trigger] scores@[t]).len() < i32::MAX,
        decreases scores@.len() - i,
    {
        if scores[i].detailed_statistics.round_scores.len() >= i32::MAX as usize {
            return false;
        }
        i = i + 1;
    }
    true
}

fn sums_within(sums: &Vec<i128>, lo: i128, hi: i128) -> (r: bool)
    ensures
        r == forall|k: int| 0 <= k < sums@.len() ==> lo <= #[trigger] sums@[k] <= hi,
{
    let mut k: usize = 0;
    while k < sums.len()
        invariant
            k <= sums@.len(),
            forall|j: int| 0 <= j < k ==> lo <= #[trigger] sums@[j] <= hi,
        decreases sums@.len() - k,
    {
        if sums[k] < lo || sums[k] > hi {
            return false;
        }
        k = k + 1;
    }
    true
}

/// Whether the round sums of each bettor fit in an `isize` and no pick has too many rounds
/// (what the round summary needs).
pub fn summary_totals_fit_check(scores: &[Scores]) -> (r: bool)
    ensures
        r == (bettor_round_totals_fit(scores@) && round_counts_fit(scores@)),
{
    if !round_counts_fit_check(scores) {
        return false;
    }
    let names = bettor_names_in_order(scores);
    let ghost bs = texts(names@);
    let mut i: usize = 0;
    while i < names.len()
        invariant
            i <= names@.len(),
            bs == texts(names@),
            bs == bettor_order(scores@),
            forall|k: int, r: int|
                0 <= k < i && 0 <= r < rounds_played(scores@, bs[k], None) ==> isize::MIN
                    <= #[trigger] round_total(scores@, bs[k], None, r) <= isize::MAX,
        decreases names@.len() - i,
    {
        let sums = round_sums(scores, &names[i], None);
        proof {
            assert(bs[i as int] == names@[i as int]@);
        }
        if !sums_within(&sums, isize::MIN as i128, isize::MAX as i128) {
            proof {
                let k = choose|k: int| 0 <= k < sums@.len() && !(isize::MIN <= #[trigger] sums@[k] <= isize::MAX);
                assert(!(isize::MIN <= round_total(scores@, bs[i as int], None, k) <= isize::MAX));
            }
            return false;
        }
        proof {
            assert forall|r: int| 0 <= r < rounds_played(scores@, bs[i as int], None) implies isize::MIN
                <= #[trigger] round_total(scores@, bs[i as int], None, r) <= isize::MAX by {
                assert(sums@[r] == round_total(scores@, bs[i as int], None, r));
            }
        }
        i = i + 1;
    }
    proof {
        assert forall|b: Seq<char>, r: int| 0 <= r < rounds_played(scores@, b, None) implies isize::MIN
            <= #[trigger] round_total(scores@, b, None, r) <= isize::MAX by {
            if bs.contains(b) {
                let k = choose|k: int| 0 <= k < bs.len() && bs[k] == b;
            } else {
                lemma_unpicked_bettor(scores@, b, None);
            }
        }
    }
    true
}

/// Whether the round sums of each golfer of each bettor fit in an `i32` and no pick has too
/// many rounds (what the detailed scores need).
pub fn detail_totals_fit_check(scores: &[Scores]) -> (r: bool)
    ensures
        r == (golfer_round_totals_fit(scores@) && round_counts_fit(scores@)),
{
    if !round_counts_fit_check(scores) {
        return false;
    }
    let names = bettor_names_in_order(scores);
    let ghost bs = texts(names@);
    let mut i: usize = 0;
    while i < names.len()
        invariant
            i <= names@.len(),
            bs == texts(names@),
            bs == bettor_order(scores@),
            forall|k: int, g: Seq<char>, r: int|
                0 <= k < i && 0 <= r < rounds_played(scores@, bs[k], Some(g)) ==> i32::MIN
                    <= #[trigger] round_total(scores@, bs[k], Some(g), r) <= i32::MAX,
        decreases names@.len() - i,
    {
        proof {
            assert(bs[i as int] == names@[i as int]@);
        }
        let golfers = golfer_names_in_order(scores, &names[i]);
        let ghost gs = texts(golfers@);
        let mut j: usize = 0;
        while j < golfers.len()
            invariant
                i < names@.len(),
                j <= golfers@.len(),
                gs == texts(golfers@),
                gs == golfer_order(scores@, bs[i as int]),
                bs[i as int] == names@[i as int]@,
                forall|k: int, r: int|
                    0 <= k < j && 0 <= r < rounds_played(scores@, bs[i as int], Some(gs[k])) ==> i32::MIN
                        <= #[trigger] round_total(scores@, bs[i as int], Some(gs[k]), r) <= i32::MAX,
            decreases golfers@.len() - j,
        {
            let sums = round_sums(scores, &names[i], Some(&golfers[j]));
            proof {
                assert(gs[j as int] == golfers@[j as int]@);
            }
            if !sums_within(&sums, i32::MIN as i128, i32::MAX as i128) {
                proof {
                    let k = choose|k: int| 0 <= k < sums@.len() && !(i32::MIN <= #[trigger] sums@[k] <= i32::MAX);
                    assert(!(i32::MIN <= round_total(scores@, bs[i as int], Some(gs[j as int]), k) <= i32::MAX));
                }
                return false;
            }
            proof {
                assert forall|r: int| 0 <= r < rounds_played(scores@, bs[i as int], Some(gs[j as int])) implies i32::MIN
                    <= #[trigger] round_total(scores@, bs[i as int], Some(gs[j as int]), r) <= i32::MAX by {
                    assert(sums@[r] == round_total(scores@, bs[i as int], Some(gs[j as int]), r));
                }
            }
            j = j + 1;
        }
        proof {
            assert forall|g: Seq<char>, r: int| 0 <= r < rounds_played(scores@, bs[i as int], Some(g)) implies i32::MIN
                <= #[trigger] round_total(scores@, bs[i as int], Some(g), r) <= i32::MAX by {
                if gs.contains(g) {
                    let k = choose|k: int| 0 <= k < gs.len() && gs[k] == g;
                } else {
                    lemma_unpicked_golfer(scores@, bs[i as int], g);
                }
            }
        }
        i = i + 1;
    }
    proof {
        assert forall|b: Seq<char>, g: Seq<char>, r: int| 0 <= r < rounds_played(scores@, b, Some(g)) implies i32::MIN
            <= #[trigger] round_total(scores@, b, Some(g), r) <= i32::MAX by {
            if bs.contains(b) {
                let k = choose|k: int| 0 <= k < bs.len() && bs[k] == b;
            } else {
                lemma_unpicked_bettor(scores@, b, Some(g));
            }
        }
    }
    true
}

} // verus!
