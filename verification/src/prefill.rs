//! Reading the events file that fills an empty database: which event a datum names, and
//! the bettors, golfers and picks that are recorded for it when it is missing.
//!
//! Step factors are floating-point numbers; this module says where they stand and that
//! they are numbers, and leaves their values to the caller.
use vstd::prelude::*;

use crate::json::{is_json_number, json_array, json_get, json_i64, json_index, json_text, JsonValue};
use crate::text::owned;

verus! {

/// A golfer of the events file.
#[derive(Debug)]
pub struct PrefillGolfer {
    pub name: String,
    pub espn_id: i64,
}

/// A pick of the events file: the golfer that a bettor took, and whether the pick carries a
/// step factor of its own.
#[derive(Debug)]
pub struct PrefillPick {
    pub bettor: String,
    pub golfer_espn_id: i64,
    pub has_step_factor: bool,
}

/// One entry of an event's data to fill: bettors, golfers and the picks that join them.
#[derive(Debug)]
pub struct PrefillGroup {
    pub bettors: Vec<String>,
    pub golfers: Vec<PrefillGolfer>,
    pub picks: Vec<PrefillPick>,
}

/// An event of the events file with everything that is recorded for it.
#[derive(Debug)]
pub struct PrefillEvent {
    pub name: String,
    pub espn_id: i64,
    pub year: i64,
    pub groups: Vec<PrefillGroup>,
}

/// `value[key].as_str()`.
pub open spec fn member_text(value: JsonValue, key: Seq<char>) -> Option<Seq<char>> {
    json_text(json_get(value, key))
}

/// `value[key].as_i64()`.
pub open spec fn member_i64(value: JsonValue, key: Seq<char>) -> Option<i64> {
    json_i64(json_get(value, key))
}

/// `value[key].as_array()`.
pub open spec fn member_array(value: JsonValue, key: Seq<char>) -> Option<Seq<JsonValue>> {
    json_array(json_index(value, key))
}

/// The ESPN id and the year that a datum names, when both are integers.
pub open spec fn datum_key(datum: JsonValue) -> Option<(i64, i64)> {
    match (member_i64(datum, "event"@), member_i64(datum, "year"@)) {
        (Some(event), Some(year)) => Some((event, year)),
        _ => None,
    }
}

pub open spec fn golfer_readable(g: JsonValue) -> bool {
    &&& member_text(g, "name"@) is Some
    &&& member_i64(g, "espn_id"@) is Some
}

pub open spec fn golfer_matches(r: PrefillGolfer, g: JsonValue) -> bool {
    &&& member_text(g, "name"@) == Some(r.name@)
    &&& member_i64(g, "espn_id"@) == Some(r.espn_id)
}

/// A pick names its bettor and its golfer; a step factor, where the pick has one, is a
/// number.
pub open spec fn pick_readable(p: JsonValue) -> bool {
    &&& member_text(p, "bettor"@) is Some
    &&& member_i64(p, "golfer_espn_id"@) is Some
    &&& (json_get(p, "score_view_step_factor"@) is Some ==> is_json_number(
        json_index(p, "score_view_step_factor"@),
    ))
}

pub open spec fn pick_matches(r: PrefillPick, p: JsonValue) -> bool {
    &&& member_text(p, "bettor"@) == Some(r.bettor@)
    &&& member_i64(p, "golfer_espn_id"@) == Some(r.golfer_espn_id)
    &&& r.has_step_factor == (json_get(p, "score_view_step_factor"@) is Some)
}

pub open spec fn all_texts(items: Seq<JsonValue>) -> bool {
    forall|i: int| 0 <= i < items.len() ==> (json_text(Some(#[trigger] items[i])) is Some)
}

pub open spec fn texts_match(ts: Seq<String>, items: Seq<JsonValue>) -> bool {
    &&& ts.len() == items.len()
    &&& forall|i: int| 0 <= i < items.len() ==> json_text(Some(#[trigger] items[i])) == Some(ts[i]@)
}

pub open spec fn all_golfers(items: Seq<JsonValue>) -> bool {
    forall|i: int| 0 <= i < items.len() ==> golfer_readable(#[trigger] items[i])
}

pub open spec fn golfers_match(gs: Seq<PrefillGolfer>, items: Seq<JsonValue>) -> bool {
    &&& gs.len() == items.len()
    &&& forall|i: int| 0 <= i < items.len() ==> golfer_matches(gs[i], #[trigger] items[i])
}

pub open spec fn all_picks(items: Seq<JsonValue>) -> bool {
    forall|i: int| 0 <= i < items.len() ==> pick_readable(#[trigger] items[i])
}

pub open spec fn picks_match(ps: Seq<PrefillPick>, items: Seq<JsonValue>) -> bool {
    &&& ps.len() == items.len()
    &&& forall|i: int| 0 <= i < items.len() ==> pick_matches(ps[i], #[trigger] items[i])
}

/// An entry of the data to fill holds arrays of bettor names, of golfers and of picks.
pub open spec fn group_readable(d: JsonValue) -> bool {
    match (
        member_array(d, "bettors"@),
        member_array(d, "golfers"@),
        member_array(d, "event_user_player"@),
    ) {
        (Some(bs), Some(gs), Some(ps)) => all_texts(bs) && all_golfers(gs) && all_picks(ps),
        _ => false,
    }
}

pub open spec fn group_matches(r: PrefillGroup, d: JsonValue) -> bool {
    match (
        member_array(d, "bettors"@),
        member_array(d, "golfers"@),
        member_array(d, "event_user_player"@),
    ) {
        (Some(bs), Some(gs), Some(ps)) => {
            &&& texts_match(r.bettors@, bs)
            &&& golfers_match(r.golfers@, gs)
            &&& picks_match(r.picks@, ps)
        },
        _ => false,
    }
}

pub open spec fn all_groups(items: Seq<JsonValue>) -> bool {
    forall|i: int| 0 <= i < items.len() ==> group_readable(#[trigger] items[i])
}

pub open spec fn groups_match(rs: Seq<PrefillGroup>, items: Seq<JsonValue>) -> bool {
    &&& rs.len() == items.len()
    &&& forall|i: int| 0 <= i < items.len() ==> group_matches(rs[i], #[trigger] items[i])
}

/// A datum can be recorded: it names its event and year, has a name and a step factor that
/// is a number, and an array of data to fill whose entries are all readable.
pub open spec fn event_readable(datum: JsonValue) -> bool {
    &&& datum_key(datum) is Some
    &&& member_text(datum, "name"@) is Some
    &&& is_json_number(json_index(datum, "score_view_step_factor"@))
    &&& match member_array(datum, "data_to_fill_if_event_and_year_missing"@) {
        Some(ds) => all_groups(ds),
        None => false,
    }
}

pub open spec fn event_matches(r: PrefillEvent, datum: JsonValue) -> bool {
    &&& member_text(datum, "name"@) == Some(r.name@)
    &&& datum_key(datum) == Some((r.espn_id, r.year))
    &&& match member_array(datum, "data_to_fill_if_event_and_year_missing"@) {
        Some(ds) => groups_match(r.groups@, ds),
        None => false,
    }
}

fn get_i64(value: &JsonValue, key: &str) -> (r: Option<i64>)
    ensures
        r == member_i64(*value, key@),
{
    match value.get(key) {
        Some(v) => v.as_i64(),
        None => None,
    }
}

fn get_text(value: &JsonValue, key: &str) -> (r: Option<String>)
    ensures
        match r {
            Some(s) => member_text(*value, key@) == Some(s@),
            None => member_text(*value, key@) is None,
        },
{
    match value.get(key) {
        Some(v) => match v.as_str() {
            Some(s) => Some(owned(s)),
            None => None,
        },
        None => None,
    }
}

fn get_array<'a>(value: &'a JsonValue, key: &str) -> (r: Option<&'a Vec<JsonValue>>)
    ensures
        match r {
            Some(items) => member_array(*value, key@) == Some(items@),
            None => member_array(*value, key@) is None,
        },
{
    match value.get(key) {
        Some(v) => v.as_array(),
        None => None,
    }
}

/// The ESPN id and the year that a datum of the events file names (`datum["event"]` and
/// `datum["year"]`), when both are integers.
pub fn prefill_key(datum: &JsonValue) -> (r: Option<(i64, i64)>)
    ensures
        r == datum_key(*datum),
{
    match (get_i64(datum, "event"), get_i64(datum, "year")) {
        (Some(event), Some(year)) => Some((event, year)),
        _ => None,
    }
}

fn read_texts(items: &Vec<JsonValue>) -> (r: Option<Vec<String>>)
    ensures
        match r {
            Some(ts) => texts_match(ts@, items@),
            None => !all_texts(items@),
        },
{
    let mut out: Vec<String> = Vec::new();
    let mut i: usize = 0;
    while i < items.len()
        invariant
            i <= items.len(),
            out@.len() == i,
            forall|k: int| 0 <= k < i ==> json_text(Some(#[trigger] items@[k])) == Some(out@[k]@),
        decreases items.len() - i,
    {
        match items[i].as_str() {
            Some(s) => {
                out.push(owned(s));
            },
            None => {
                assert(json_text(Some(items@[i as int])) is None);
                return None;
            },
        }
        i = i + 1;
    }
    Some(out)
}

fn read_golfers(items: &Vec<JsonValue>) -> (r: Option<Vec<PrefillGolfer>>)
    ensures
        match r {
            Some(gs) => golfers_match(gs@, items@),
            None => !all_golfers(items@),
        },
{
    let mut out: Vec<PrefillGolfer> = Vec::new();
    let mut i: usize = 0;
    while i < items.len()
        invariant
            i <= items.len(),
            out@.len() == i,
            forall|k: int| 0 <= k < i ==> golfer_matches(out@[k], #[trigger] items@[k]),
        decreases items.len() - i,
    {
        let g = &items[i];
        match (get_text(g, "name"), get_i64(g, "espn_id")) {
            (Some(name), Some(espn_id)) => {
                out.push(PrefillGolfer { name, espn_id });
            },
            _ => {
                assert(!golfer_readable(items@[i as int]));
                return None;
            },
        }
        i = i + 1;
    }
    Some(out)
}

fn read_picks(items: &Vec<JsonValue>) -> (r: Option<Vec<PrefillPick>>)
    ensures
        match r {
            Some(ps) => picks_match(ps@, items@) && all_picks(items@),
            None => !all_picks(items@),
        },
{
    let mut out: Vec<PrefillPick> = Vec::new();
    let mut i: usize = 0;
    while i < items.len()
        invariant
            i <= items.len(),
            out@.len() == i,
            forall|k: int| 0 <= k < i ==> pick_matches(out@[k], #[trigger] items@[k]),
            forall|k: int| 0 <= k < i ==> pick_readable(#[trigger] items@[k]),
        decreases items.len() - i,
    {
        let p = &items[i];
        let factor = p.get("score_view_step_factor");
        let factor_ok = match factor {
            Some(v) => v.is_number(),
            None => true,
        };
        match (get_text(p, "bettor"), get_i64(p, "golfer_espn_id")) {
            (Some(bettor), Some(golfer_espn_id)) => {
                if !factor_ok {
                    assert(!pick_readable(items@[i as int]));
                    return None;
                }
                out.push(PrefillPick { bettor, golfer_espn_id, has_step_factor: factor.is_some() });
            },
            _ => {
                assert(!pick_readable(items@[i as int]));
                return None;
            },
        }
        i = i + 1;
    }
    Some(out)
}

fn read_group(d: &JsonValue) -> (r: Option<PrefillGroup>)
    ensures
        match r {
            Some(g) => group_matches(g, *d) && group_readable(*d),
            None => !group_readable(*d),
        },
{
    let bettors = match get_array(d, "bettors") {
        Some(items) => items,
        None => {
            return None;
        },
    };
    let golfers = match get_array(d, "golfers") {
        Some(items) => items,
        None => {
            return None;
        },
    };
    let picks = match get_array(d, "event_user_player") {
        Some(items) => items,
        None => {
            return None;
        },
    };
    let bettors = match read_texts(bettors) {
        Some(ts) => ts,
        None => {
            return None;
        },
    };
    let golfers = match read_golfers(golfers) {
        Some(gs) => gs,
        None => {
            return None;
        },
    };
    let picks = match read_picks(picks) {
        Some(ps) => ps,
        None => {
            return None;
        },
    };
    Some(PrefillGroup { bettors, golfers, picks })
}

/// Everything that the events file records for a datum whose event is missing from the
/// database: its name, ESPN id and year, and for each entry of its data to fill the bettor
/// names, the golfers and the picks, in the file's order.
///
/// `None` exactly when the datum cannot be recorded (`event_readable`): a field is missing
/// or has the wrong kind.
pub fn prefill_event(datum: &JsonValue) -> (r: Option<PrefillEvent>)
    ensures
        match r {
            Some(ev) => event_matches(ev, *datum) && event_readable(*datum),
            None => !event_readable(*datum),
        },
{
    let (espn_id, year) = match prefill_key(datum) {
        Some(key) => key,
        None => {
            return None;
        },
    };
    let name = match get_text(datum, "name") {
        Some(name) => name,
        None => {
            return None;
        },
    };
    let factor_ok = match datum.get("score_view_step_factor") {
        Some(v) => v.is_number(),
        None => false,
    };
    if !factor_ok {
        return None;
    }
    let data = match get_array(datum, "data_to_fill_if_event_and_year_missing") {
        Some(items) => items,
        None => {
            return None;
        },
    };
    let mut groups: Vec<PrefillGroup> = Vec::new();
    let mut i: usize = 0;
    while i < data.len()
        invariant
            i <= data.len(),
            groups@.len() == i,
            forall|k: int| 0 <= k < i ==> group_matches(groups@[k], #[trigger] data@[k]),
            forall|k: int| 0 <= k < i ==> group_readable(#[trigger] data@[k]),
            member_array(*datum, "data_to_fill_if_event_and_year_missing"@) == Some(data@),
        decreases data.len() - i,
    {
        match read_group(&data[i]) {
            Some(g) => {
                groups.push(g);
            },
            None => {
                assert(!group_readable(data@[i as int]));
                return None;
            },
        }
        i = i + 1;
    }
    Some(PrefillEvent { name, espn_id, year, groups })
}

} // verus!
