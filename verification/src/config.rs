use vstd::prelude::*;

use crate::json::{
    is_json_array, is_json_number, is_json_object, is_json_string, json_get, json_index,
    json_keys, parse_json, parsed_json, JsonValue,
};
use crate::db::DatabaseType;
use crate::text::{owned, str_equal, trim_text, trimmed};

verus! {

/// The outcome of a format check: it passes, fails with a message, or the check itself
/// breaks down (it unwraps something that is not there).
pub enum Checked {
    Pass,
    Fail(Seq<char>),
    Crash,
}

/// The outcome that a check's result stands for: `Err(None)` when the check breaks down.
pub open spec fn outcome_of(r: Result<(), Option<String>>) -> Checked {
    match r {
        Ok(()) => Checked::Pass,
        Err(Some(m)) => Checked::Fail(m@),
        Err(None) => Checked::Crash,
    }
}

/// The outcome of checking each of `s` in turn with `f`, stopping at the first that does
/// not pass.
pub open spec fn first_outcome(s: Seq<JsonValue>, f: spec_fn(JsonValue) -> Checked) -> Checked
    decreases s.len(),
{
    if s.len() == 0 {
        Checked::Pass
    } else {
        match f(s[0]) {
            Checked::Pass => first_outcome(s.drop_first(), f),
            o => o,
        }
    }
}

/// Checks `first`, then, if it passes, `rest`.
pub open spec fn then_check(first: Checked, rest: Checked) -> Checked {
    match first {
        Checked::Pass => rest,
        o => o,
    }
}

pub open spec fn top_keys_message() -> Seq<char> {
    "The json file is not in the correct format. Expected keys: [\"event\", \"year\", \"name\", \"data_to_fill_if_event_and_year_missing\", \"score_view_step_factor\"]"@
}

pub open spec fn fill_keys_message() -> Seq<char> {
    "The json key data_to_fill_if_event_and_year_missing is not in the correct format. Expected keys: [\"bettors\", \"golfers\", \"event_user_player\"]"@
}

/// A key that an event entry may have.
pub open spec fn is_top_key(k: Seq<char>) -> bool {
    k == "event"@ || k == "year"@ || k == "name"@ || k == "data_to_fill_if_event_and_year_missing"@
        || k == "score_view_step_factor"@
}

/// A key that an entry of `data_to_fill_if_event_and_year_missing` may have.
pub open spec fn is_fill_key(k: Seq<char>) -> bool {
    k == "bettors"@ || k == "golfers"@ || k == "event_user_player"@
}

/// The check of an event entry's own keys and values. The keys are checked in order; the
/// value checks are made along with each key, so an entry without keys passes, and a
/// first key that is not expected fails before the values are looked at.
pub open spec fn entry_header_check(e: JsonValue) -> Checked {
    let keys = json_keys(e);
    if keys.len() == 0 {
        Checked::Pass
    } else if !is_top_key(keys[0]) {
        Checked::Fail(top_keys_message())
    } else if !is_json_number(json_index(e, "event"@)) {
        Checked::Fail("The json key event is not in the correct format. Expected a number."@)
    } else if !is_json_number(json_index(e, "year"@)) {
        Checked::Fail("The json key year is not in the correct format. Expected a number."@)
    } else if !is_json_string(json_index(e, "name"@)) {
        Checked::Fail("The json key name is not in the correct format. Expected a string."@)
    } else if !is_json_number(json_index(e, "score_view_step_factor"@)) {
        Checked::Fail(
            "The json key score_view_step_factor is not in the correct format. Expected a number."@,
        )
    } else if exists|i: int| 0 <= i < keys.len() && !is_top_key(#[trigger] keys[i]) {
        Checked::Fail(top_keys_message())
    } else {
        Checked::Pass
    }
}

/// The check of the keys of one entry of `data_to_fill_if_event_and_year_missing`.
pub open spec fn fill_keys_check(d: JsonValue) -> Checked {
    if !is_json_object(d) {
        Checked::Crash
    } else if exists|i: int| 0 <= i < json_keys(d).len() && !is_fill_key(#[trigger] json_keys(d)[i]) {
        Checked::Fail(fill_keys_message())
    } else {
        Checked::Pass
    }
}

/// Every entry of `ds` has an array under `key`.
pub open spec fn all_have_list(ds: Seq<JsonValue>, key: Seq<char>) -> bool {
    forall|k: int| 0 <= k < ds.len() ==> is_json_array(#[trigger] json_index(ds[k], key))
}

/// The elements of the arrays under `key` of all entries of `ds`, one after the other.
pub open spec fn list_items(ds: Seq<JsonValue>, key: Seq<char>) -> Seq<JsonValue>
    decreases ds.len(),
{
    if ds.len() == 0 {
        Seq::empty()
    } else {
        match json_index(ds[0], key) {
            JsonValue::Array(items) => items@ + list_items(ds.drop_first(), key),
            _ => list_items(ds.drop_first(), key),
        }
    }
}

/// The check of the arrays under `key`: all of them are gathered first (which breaks down
/// when one is missing), then each element is checked with `f` in turn.
pub open spec fn list_check(ds: Seq<JsonValue>, key: Seq<char>, f: spec_fn(JsonValue) -> Checked) -> Checked {
    if !all_have_list(ds, key) {
        Checked::Crash
    } else {
        first_outcome(list_items(ds, key), f)
    }
}

pub open spec fn bettor_check(b: JsonValue) -> Checked {
    if is_json_string(b) {
        Checked::Pass
    } else {
        Checked::Fail("The json key bettors is not in the correct format. Expected strings."@)
    }
}

pub open spec fn golfer_check(g: JsonValue) -> Checked {
    if !is_json_object(g) {
        Checked::Fail("The json key golfers is not in the correct format. Expected objects."@)
    } else if !is_json_string(json_index(g, "name"@)) || !is_json_number(json_index(g, "espn_id"@)) {
        Checked::Fail(
            "The json key golfers is not in the correct format. Expected objects with keys name and espn_id."@,
        )
    } else {
        Checked::Pass
    }
}

pub open spec fn pick_check(p: JsonValue) -> Checked {
    if !is_json_object(p) {
        Checked::Fail(
            "The json key event_user_player is not in the correct format. Expected objects."@,
        )
    } else if !is_json_string(json_index(p, "bettor"@)) || !is_json_number(
        json_index(p, "golfer_espn_id"@),
    ) {
        Checked::Fail(
            "The json key event_user_player is not in the correct format. Expected objects with keys bettor and golfer_espn_id."@,
        )
    } else {
        Checked::Pass
    }
}

/// The check of the entries of `data_to_fill_if_event_and_year_missing`: their keys, then
/// the bettors, the golfers and the picks, each gathered over all entries.
pub open spec fn fill_check(ds: Seq<JsonValue>) -> Checked {
    then_check(
        first_outcome(ds, fill_keys_fn()),
        then_check(
            list_check(ds, list_key(ItemKind::Bettor), item_fn(ItemKind::Bettor)),
            then_check(
                list_check(ds, list_key(ItemKind::Golfer), item_fn(ItemKind::Golfer)),
                list_check(ds, list_key(ItemKind::Pick), item_fn(ItemKind::Pick)),
            ),
        ),
    )
}

pub open spec fn fill_keys_fn() -> spec_fn(JsonValue) -> Checked {
    |d: JsonValue| fill_keys_check(d)
}

pub open spec fn entry_fn() -> spec_fn(JsonValue) -> Checked {
    |e: JsonValue| entry_check(e)
}

/// The three lists of an entry of `data_to_fill_if_event_and_year_missing`.
#[derive(Clone, Copy, Debug, PartialEq, Eq, Structural)]
pub enum ItemKind {
    Bettor,
    Golfer,
    Pick,
}

pub open spec fn list_key(kind: ItemKind) -> Seq<char> {
    match kind {
        ItemKind::Bettor => "bettors"@,
        ItemKind::Golfer => "golfers"@,
        ItemKind::Pick => "event_user_player"@,
    }
}

pub open spec fn item_fn(kind: ItemKind) -> spec_fn(JsonValue) -> Checked {
    match kind {
        ItemKind::Bettor => |b: JsonValue| bettor_check(b),
        ItemKind::Golfer => |g: JsonValue| golfer_check(g),
        ItemKind::Pick => |p: JsonValue| pick_check(p),
    }
}

/// The check of one event entry.
pub open spec fn entry_check(e: JsonValue) -> Checked {
    if !is_json_object(e) {
        Checked::Crash
    } else {
        then_check(
            entry_header_check(e),
            match json_index(e, "data_to_fill_if_event_and_year_missing"@) {
                JsonValue::Array(ds) => fill_check(ds@),
                _ => Checked::Crash,
            },
        )
    }
}

/// The check of a file of events: an array of event entries, checked in order.
pub open spec fn json_format_check(json: JsonValue) -> Checked {
    match json {
        JsonValue::Array(es) => first_outcome(es@, entry_fn()),
        _ => Checked::Fail("The json file is not in the correct format."@),
    }
}

fn fail(msg: &str) -> (r: Result<(), Option<String>>)
    ensures
        outcome_of(r) == Checked::Fail(msg@),
{
    Err(Some(owned(msg)))
}

fn is_top_key_exec(k: &str) -> (r: bool)
    ensures
        r == is_top_key(k@),
{
    str_equal(k, "event") || str_equal(k, "year") || str_equal(k, "name") || str_equal(
        k,
        "data_to_fill_if_event_and_year_missing",
    ) || str_equal(k, "score_view_step_factor")
}

fn is_fill_key_exec(k: &str) -> (r: bool)
    ensures
        r == is_fill_key(k@),
{
    str_equal(k, "bettors") || str_equal(k, "golfers") || str_equal(k, "event_user_player")
}

/// The member `key` of an object, `Null` when missing (`value[key]`).
fn index_of<'a>(v: &'a JsonValue, key: &str, null: &'a JsonValue) -> (r: &'a JsonValue)
    requires
        *null == JsonValue::Null,
    ensures
        *r == json_index(*v, key@),
{
    match v.get(key) {
        Some(m) => m,
        None => null,
    }
}

fn entry_header(e: &JsonValue) -> (r: Result<(), Option<String>>)
    requires
        is_json_object(*e),
    ensures
        outcome_of(r) == entry_header_check(*e),
{
    let null = JsonValue::Null;
    match e {
        JsonValue::Object(entries) => {
            let ghost keys = json_keys(*e);
            assert(keys.len() == entries@.len());
            if entries.len() == 0 {
                return Ok(());
            }
            assert(keys[0] == entries@[0].0@);
            if !is_top_key_exec(entries[0].0.as_str()) {
                return fail(
                    "The json file is not in the correct format. Expected keys: [\"event\", \"year\", \"name\", \"data_to_fill_if_event_and_year_missing\", \"score_view_step_factor\"]",
                );
            }
            if !index_of(e, "event", &null).is_number() {
                return fail("The json key event is not in the correct format. Expected a number.");
            }
            if !index_of(e, "year", &null).is_number() {
                return fail("The json key year is not in the correct format. Expected a number.");
            }
            if !index_of(e, "name", &null).is_string() {
                return fail("The json key name is not in the correct format. Expected a string.");
            }
            if !index_of(e, "score_view_step_factor", &null).is_number() {
                return fail(
                    "The json key score_view_step_factor is not in the correct format. Expected a number.",
                );
            }
            let mut i: usize = 1;
            while i < entries.len()
                invariant
                    1 <= i <= entries@.len(),
                    keys == json_keys(*e),
                    keys.len() == entries@.len(),
                    is_top_key(keys[0]),
                    is_json_number(json_index(*e, "event"@)),
                    is_json_number(json_index(*e, "year"@)),
                    is_json_string(json_index(*e, "name"@)),
                    is_json_number(json_index(*e, "score_view_step_factor"@)),
                    forall|j: int| 0 <= j < i ==> is_top_key(#[trigger] keys[j]),
                    forall|j: int| 0 <= j < keys.len() ==> #[trigger] keys[j] == entries@[j].0@,
                decreases entries@.len() - i,
            {
                if !is_top_key_exec(entries[i].0.as_str()) {
                    proof {
                        assert(!is_top_key(keys[i as int]));
                    }
                    return fail(
                        "The json file is not in the correct format. Expected keys: [\"event\", \"year\", \"name\", \"data_to_fill_if_event_and_year_missing\", \"score_view_step_factor\"]",
                    );
                }
                i = i + 1;
            }
            Ok(())
        },
        _ => Ok(()),
    }
}


proof fn lemma_first_outcome_step(s: Seq<JsonValue>, f: spec_fn(JsonValue) -> Checked, k: int)
    requires
        0 <= k < s.len(),
    ensures
        first_outcome(s.skip(k), f) == then_check(f(s[k]), first_outcome(s.skip(k + 1), f)),
{
    assert(s.skip(k)[0] == s[k]);
    assert(s.skip(k).drop_first() =~= s.skip(k + 1));
}

proof fn lemma_first_outcome_append(a: Seq<JsonValue>, b: Seq<JsonValue>, f: spec_fn(JsonValue) -> Checked)
    ensures
        first_outcome(a + b, f) == then_check(first_outcome(a, f), first_outcome(b, f)),
    decreases a.len(),
{
    if a.len() > 0 {
        assert((a + b).drop_first() =~= a.drop_first() + b);
        lemma_first_outcome_append(a.drop_first(), b, f);
    } else {
        assert(a + b =~= b);
    }
}

fn check_item(v: &JsonValue, kind: ItemKind) -> (r: Result<(), Option<String>>)
    ensures
        outcome_of(r) == (item_fn(kind))(*v),
{
    let null = JsonValue::Null;
    match kind {
        ItemKind::Bettor => {
            if v.is_string() {
                Ok(())
            } else {
                fail("The json key bettors is not in the correct format. Expected strings.")
            }
        },
        ItemKind::Golfer => {
            if !v.is_object() {
                fail("The json key golfers is not in the correct format. Expected objects.")
            } else if !index_of(v, "name", &null).is_string() || !index_of(
                v,
                "espn_id",
                &null,
            ).is_number() {
                fail(
                    "The json key golfers is not in the correct format. Expected objects with keys name and espn_id.",
                )
            } else {
                Ok(())
            }
        },
        ItemKind::Pick => {
            if !v.is_object() {
                fail(
                    "The json key event_user_player is not in the correct format. Expected objects.",
                )
            } else if !index_of(v, "bettor", &null).is_string() || !index_of(
                v,
                "golfer_espn_id",
                &null,
            ).is_number() {
                fail(
                    "The json key event_user_player is not in the correct format. Expected objects with keys bettor and golfer_espn_id.",
                )
            } else {
                Ok(())
            }
        },
    }
}

fn check_items(items: &[JsonValue], kind: ItemKind) -> (r: Result<(), Option<String>>)
    ensures
        outcome_of(r) == first_outcome(items@, item_fn(kind)),
{
    let mut k: usize = 0;
    proof {
        assert(items@.skip(0) =~= items@);
    }
    while k < items.len()
        invariant
            k <= items@.len(),
            first_outcome(items@, item_fn(kind)) == first_outcome(items@.skip(k as int), item_fn(kind)),
        decreases items@.len() - k,
    {
        proof {
            lemma_first_outcome_step(items@, item_fn(kind), k as int);
        }
        let r = check_item(&items[k], kind);
        if r.is_err() {
            return r;
        }
        k = k + 1;
    }
    proof {
        assert(items@.skip(k as int).len() == 0);
    }
    Ok(())
}

fn list_key_exec(kind: ItemKind) -> (r: &'static str)
    ensures
        r@ == list_key(kind),
{
    match kind {
        ItemKind::Bettor => "bettors",
        ItemKind::Golfer => "golfers",
        ItemKind::Pick => "event_user_player",
    }
}

proof fn lemma_list_items_step(ds: Seq<JsonValue>, key: Seq<char>, k: int)
    requires
        0 <= k < ds.len(),
    ensures
        list_items(ds.skip(k), key) == (match json_index(ds[k], key) {
            JsonValue::Array(items) => items@ + list_items(ds.skip(k + 1), key),
            _ => list_items(ds.skip(k + 1), key),
        }),
{
    assert(ds.skip(k)[0] == ds[k]);
    assert(ds.skip(k).drop_first() =~= ds.skip(k + 1));
}

fn check_list(ds: &[JsonValue], kind: ItemKind) -> (r: Result<(), Option<String>>)
    ensures
        outcome_of(r) == list_check(ds@, list_key(kind), item_fn(kind)),
{
    let null = JsonValue::Null;
    let key = list_key_exec(kind);
    let ghost f = item_fn(kind);
    let mut j: usize = 0;
    while j < ds.len()
        invariant
            j <= ds@.len(),
            null == JsonValue::Null,
            key@ == list_key(kind),
            forall|i: int| 0 <= i < j ==> is_json_array(#[trigger] json_index(ds@[i], key@)),
        decreases ds@.len() - j,
    {
        if !index_of(&ds[j], key, &null).is_array() {
            return Err(None);
        }
        j = j + 1;
    }
    let mut k: usize = 0;
    proof {
        assert(ds@.skip(0) =~= ds@);
    }
    while k < ds.len()
        invariant
            k <= ds@.len(),
            key@ == list_key(kind),
            null == JsonValue::Null,
            f == item_fn(kind),
            all_have_list(ds@, key@),
            list_check(ds@, key@, f) == first_outcome(list_items(ds@.skip(k as int), key@), f),
        decreases ds@.len() - k,
    {
        proof {
            lemma_list_items_step(ds@, key@, k as int);
        }
        match index_of(&ds[k], key, &null) {
            JsonValue::Array(items) => {
                proof {
                    lemma_first_outcome_append(items@, list_items(ds@.skip(k + 1), key@), f);
                }
                let r = check_items(items.as_slice(), kind);
                if r.is_err() {
                    return r;
                }
            },
            _ => {
                proof {
                    assert(is_json_array(json_index(ds@[k as int], key@)));
                }
            },
        }
        k = k + 1;
    }
    proof {
        assert(ds@.skip(k as int).len() == 0);
    }
    Ok(())
}

fn fill_keys_one(d: &JsonValue) -> (r: Result<(), Option<String>>)
    ensures
        outcome_of(r) == fill_keys_check(*d),
{
    match d {
        JsonValue::Object(entries) => {
            let ghost keys = json_keys(*d);
            let mut i: usize = 0;
            while i < entries.len()
                invariant
                    i <= entries@.len(),
                    keys == json_keys(*d),
                    keys.len() == entries@.len(),
                    *d == JsonValue::Object(*entries),
                    forall|j: int| 0 <= j < i ==> is_fill_key(#[trigger] keys[j]),
                    forall|j: int| 0 <= j < keys.len() ==> #[trigger] keys[j] == entries@[j].0@,
                decreases entries@.len() - i,
            {
                if !is_fill_key_exec(entries[i].0.as_str()) {
                    proof {
                        assert(!is_fill_key(keys[i as int]));
                    }
                    return fail(
                        "The json key data_to_fill_if_event_and_year_missing is not in the correct format. Expected keys: [\"bettors\", \"golfers\", \"event_user_player\"]",
                    );
                }
                i = i + 1;
            }
            Ok(())
        },
        _ => Err(None),
    }
}

fn check_fill_keys(ds: &[JsonValue]) -> (r: Result<(), Option<String>>)
    ensures
        outcome_of(r) == first_outcome(ds@, fill_keys_fn()),
{
    let mut k: usize = 0;
    proof {
        assert(ds@.skip(0) =~= ds@);
    }
    while k < ds.len()
        invariant
            k <= ds@.len(),
            first_outcome(ds@, fill_keys_fn()) == first_outcome(ds@.skip(k as int), fill_keys_fn()),
        decreases ds@.len() - k,
    {
        proof {
            lemma_first_outcome_step(ds@, fill_keys_fn(), k as int);
        }
        let r = fill_keys_one(&ds[k]);
        if r.is_err() {
            return r;
        }
        k = k + 1;
    }
    proof {
        assert(ds@.skip(k as int).len() == 0);
    }
    Ok(())
}

fn check_fill(ds: &[JsonValue]) -> (r: Result<(), Option<String>>)
    ensures
        outcome_of(r) == fill_check(ds@),
{
    let r = check_fill_keys(ds);
    if r.is_err() {
        return r;
    }
    let r = check_list(ds, ItemKind::Bettor);
    if r.is_err() {
        return r;
    }
    let r = check_list(ds, ItemKind::Golfer);
    if r.is_err() {
        return r;
    }
    check_list(ds, ItemKind::Pick)
}

fn check_entry(e: &JsonValue) -> (r: Result<(), Option<String>>)
    ensures
        outcome_of(r) == entry_check(*e),
{
    let null = JsonValue::Null;
    if !e.is_object() {
        return Err(None);
    }
    let r = entry_header(e);
    if r.is_err() {
        return r;
    }
    match index_of(e, "data_to_fill_if_event_and_year_missing", &null) {
        JsonValue::Array(ds) => check_fill(ds.as_slice()),
        _ => Err(None),
    }
}

/// Checks the format of a file of events: an array of objects with the keys `event` (a
/// number), `year` (a number), `name` (a string), `score_view_step_factor` (a number) and
/// `data_to_fill_if_event_and_year_missing`, an array of objects with the keys `bettors`
/// (strings), `golfers` (objects with `name` and `espn_id`) and `event_user_player`
/// (objects with `bettor` and `golfer_espn_id`). Fails with a message on the first problem
/// found; `Err(None)` where an entry or one of its lists is missing altogether.
pub fn check_json_format(json: &JsonValue) -> (r: Result<(), Option<String>>)
    ensures
        outcome_of(r) == json_format_check(*json),
{
    match json {
        JsonValue::Array(es) => {
            let mut k: usize = 0;
            proof {
                assert(es@.skip(0) =~= es@);
            }
            while k < es.len()
                invariant
                    k <= es@.len(),
                    first_outcome(es@, entry_fn()) == first_outcome(es@.skip(k as int), entry_fn()),
                    json_format_check(*json) == first_outcome(es@, entry_fn()),
                decreases es@.len() - k,
            {
                proof {
                    lemma_first_outcome_step(es@, entry_fn(), k as int);
                }
                let r = check_entry(&es[k]);
                if r.is_err() {
                    return r;
                }
                k = k + 1;
            }
            proof {
                assert(es@.skip(k as int).len() == 0);
            }
            Ok(())
        },
        _ => fail("The json file is not in the correct format."),
    }
}

/// Checks the format of a file of events whose entries and lists are all there (see
/// `check_json_format`), failing with a message on the first problem found.
pub fn validate_json_format(json: &JsonValue) -> (r: Result<(), String>)
    requires
        !(json_format_check(*json) is Crash),
    ensures
        match r {
            Ok(()) => json_format_check(*json) == Checked::Pass,
            Err(m) => json_format_check(*json) == Checked::Fail(m@),
        },
{
    match check_json_format(json) {
        Ok(()) => Ok(()),
        Err(Some(m)) => Err(m),
        Err(None) => Err(String::new()),
    }
}


/// The message for a file of events whose text is not JSON.
pub open spec fn not_json_message() -> Seq<char> {
    "The json file is not valid json."@
}

/// Reads the text of a file of events and checks its format (see `check_json_format`):
/// the document when it passes; a message when the text is not JSON or the format check
/// fails with one; `Err(None)` where the format check breaks down.
pub fn check_json_file(contents: &str) -> (r: Result<JsonValue, Option<String>>)
    ensures
        parsed_json(contents@) is None ==> (r matches Err(Some(m)) && m@ == not_json_message()),
        parsed_json(contents@) matches Some(j) ==> match r {
            Ok(v) => v == j && json_format_check(j) == Checked::Pass,
            Err(e) => outcome_of(Err(e)) == json_format_check(j),
        },
{
    match parse_json(contents) {
        Some(json) => match check_json_format(&json) {
            Ok(()) => Ok(json),
            Err(e) => Err(e),
        },
        None => {
            proof {
                reveal_strlit("The json file is not valid json.");
            }
            Err(Some(owned("The json file is not valid json.")))
        },
    }
}

/// Where the database password comes from.
#[derive(Clone, Copy, Debug, PartialEq, Eq, Structural)]
pub enum PasswordSource {
    /// The password given on the command line.
    Given,
    /// The password stands in the secrets file.
    SecretFile,
}

/// The places where a deployment keeps the database password.
pub open spec fn is_secret_location(p: Seq<char>) -> bool {
    p == "/secrets/db_password"@ || p == "/run/secrets/db_password"@
}

pub open spec fn opt_text(p: Option<&str>) -> Option<Seq<char>> {
    match p {
        Some(s) => Some(s@),
        None => None,
    }
}

/// The check of the database arguments: a Postgres database needs a user, a nonempty host,
/// a port and a password, checked in that order; a password that names a secrets location
/// is read from the secrets file.
pub open spec fn db_args_check(db_type: DatabaseType, user: Option<Seq<char>>, host: Option<Seq<char>>, port: Option<u16>, password: Option<Seq<char>>) -> Result<PasswordSource, Seq<char>> {
    match db_type {
        DatabaseType::Sqlite => Ok(PasswordSource::Given),
        DatabaseType::Postgres => if user is None {
            Err("Postgres user is required"@)
        } else if host is None || host == Some(Seq::<char>::empty()) {
            Err("Postgres host is required"@)
        } else if port is None {
            Err("Postgres port is required"@)
        } else {
            match password {
                None => Err("Postgres password is required"@),
                Some(p) => if is_secret_location(p) {
                    Ok(PasswordSource::SecretFile)
                } else {
                    Ok(PasswordSource::Given)
                },
            }
        },
    }
}

/// Once a Postgres user, a nonempty host and a port are given, a password that names
/// either secrets location, `/secrets/db_password` or `/run/secrets/db_password`, is read
/// from the secrets file, and any other password is taken as given.
pub proof fn lemma_secret_password_locations(user: Seq<char>, host: Seq<char>, port: u16, password: Seq<char>)
    requires
        host.len() > 0,
    ensures
        (password == "/secrets/db_password"@ || password == "/run/secrets/db_password"@)
            ==> db_args_check(DatabaseType::Postgres, Some(user), Some(host), Some(port), Some(password))
            == Ok::<PasswordSource, Seq<char>>(PasswordSource::SecretFile),
        !(password == "/secrets/db_password"@ || password == "/run/secrets/db_password"@)
            ==> db_args_check(DatabaseType::Postgres, Some(user), Some(host), Some(port), Some(password))
            == Ok::<PasswordSource, Seq<char>>(PasswordSource::Given),
{
    assert(Some(host) != Some(Seq::<char>::empty()));
}

/// Checks the database arguments and says where the password comes from.
pub fn validate_db_args(db_type: DatabaseType, user: Option<&str>, host: Option<&str>, port: Option<u16>, password: Option<&str>) -> (r: Result<PasswordSource, String>)
    ensures
        match r {
            Ok(src) => db_args_check(db_type, opt_text(user), opt_text(host), port, opt_text(password)) == Ok::<PasswordSource, Seq<char>>(src),
            Err(m) => db_args_check(db_type, opt_text(user), opt_text(host), port, opt_text(password)) == Err::<PasswordSource, Seq<char>>(m@),
        },
{
    proof {
        reveal_strlit("");
    }
    match db_type {
        DatabaseType::Sqlite => Ok(PasswordSource::Given),
        DatabaseType::Postgres => {
            if user.is_none() {
                return Err(owned("Postgres user is required"));
            }
            match host {
                None => {
                    return Err(owned("Postgres host is required"));
                },
                Some(h) => {
                    if h.unicode_len() == 0 {
                        proof {
                            assert(h@ =~= Seq::<char>::empty());
                        }
                        return Err(owned("Postgres host is required"));
                    }
                },
            }
            if port.is_none() {
                return Err(owned("Postgres port is required"));
            }
            match password {
                None => Err(owned("Postgres password is required")),
                Some(p) => {
                    if str_equal(p, "/secrets/db_password") || str_equal(p, "/run/secrets/db_password") {
                        Ok(PasswordSource::SecretFile)
                    } else {
                        Ok(PasswordSource::Given)
                    }
                },
            }
        },
    }
}

/// The password read from the secrets file, trimmed; a placeholder when the file could
/// not be read.
pub open spec fn secret_password_of(contents: Option<Seq<char>>) -> Seq<char> {
    match contents {
        Some(c) => trimmed(c),
        None => trimmed("tempPasswordWillbeReplacedIn!AdminPanel"@),
    }
}

/// The database password from the contents of the secrets file.
pub fn secret_password(contents: Option<&str>) -> (r: String)
    ensures
        r@ == secret_password_of(opt_text(contents)),
{
    match contents {
        Some(c) => owned(trim_text(c)),
        None => owned(trim_text("tempPasswordWillbeReplacedIn!AdminPanel")),
    }
}

/// The pieces of `s` between the separators `sep`, in order (one piece when there is no
/// separator).
pub open spec fn split_on(s: Seq<char>, sep: char) -> Seq<Seq<char>>
    decreases s.len(),
{
    if s.len() == 0 {
        seq![Seq::empty()]
    } else {
        let rest = split_on(s.drop_first(), sep);
        if s[0] == sep {
            seq![Seq::empty()] + rest
        } else {
            rest.update(0, seq![s[0]] + rest[0])
        }
    }
}

proof fn lemma_split_nonempty(s: Seq<char>, sep: char)
    ensures
        split_on(s, sep).len() >= 1,
    decreases s.len(),
{
    if s.len() > 0 {
        lemma_split_nonempty(s.drop_first(), sep);
    }
}

/// The files of a startup script list: the names between the `;` separators, trimmed,
/// without the empty ones.
pub open spec fn script_files(list: Seq<char>) -> Seq<Seq<char>> {
    split_on(list, ';').map_values(trim_fn()).filter(nonempty_fn())
}

pub open spec fn trim_fn() -> spec_fn(Seq<char>) -> Seq<char> {
    |p: Seq<char>| trimmed(p)
}

pub open spec fn nonempty_fn() -> spec_fn(Seq<char>) -> bool {
    |p: Seq<char>| p.len() > 0
}

/// `split_on` read from the back: the pieces of `s.take(i)` are those of `s.take(j)` for
/// the last separator before `i`, followed by the text after it.
proof fn lemma_split_push(s: Seq<char>, c: char, sep: char)
    ensures
        split_on(s.push(c), sep) == if c == sep {
            split_on(s, sep).push(Seq::empty())
        } else {
            let p = split_on(s, sep);
            p.update(p.len() - 1, p.last().push(c))
        },
    decreases s.len(),
{
    lemma_split_nonempty(s, sep);
    if s.len() == 0 {
        assert(s.push(c).drop_first() =~= Seq::<char>::empty());
        assert(split_on(s.push(c).drop_first(), sep) == seq![Seq::<char>::empty()]);
        assert(s.push(c)[0] == c);
        assert(split_on(s, sep) == seq![Seq::<char>::empty()]);
        if c == sep {
            assert(split_on(s.push(c), sep) =~= seq![Seq::<char>::empty(), Seq::<char>::empty()]);
        } else {
            assert(seq![c] + Seq::<char>::empty() =~= Seq::<char>::empty().push(c));
            assert(split_on(s.push(c), sep) =~= seq![seq![c]]);
        }
    } else {
        assert(s.push(c).drop_first() =~= s.drop_first().push(c));
        lemma_split_push(s.drop_first(), c, sep);
        lemma_split_nonempty(s.drop_first(), sep);
        let rest = split_on(s.drop_first(), sep);
        if c == sep {
            if s[0] == sep {
                assert(split_on(s.push(c), sep) =~= split_on(s, sep).push(Seq::empty()));
            } else {
                assert(split_on(s.push(c), sep) =~= split_on(s, sep).push(Seq::empty()));
            }
        } else {
            let p = split_on(s, sep);
            if s[0] == sep {
                assert(split_on(s.push(c), sep) =~= p.update(p.len() - 1, p.last().push(c)));
            } else {
                if rest.len() == 1 {
                    assert(seq![s[0]] + rest[0].push(c) =~= (seq![s[0]] + rest[0]).push(c));
                }
                assert(split_on(s.push(c), sep) =~= p.update(p.len() - 1, p.last().push(c)));
            }
        }
    }
}

/// Splits a startup script list into its files.
pub fn startup_script_files(list: &str) -> (r: Vec<String>)
    ensures
        r@.map_values(|f: String| f@) == script_files(list@),
{
    let n = list.unicode_len();
    let mut pieces: Vec<String> = Vec::new();
    let mut start: usize = 0;
    let mut i: usize = 0;
    proof {
        assert(list@.take(0) =~= Seq::<char>::empty());
    }
    while i < n
        invariant
            start <= i <= n,
            n == list@.len(),
            split_on(list@.take(i as int), ';') == pieces@.map_values(|f: String| f@).push(
                list@.subrange(start as int, i as int),
            ),
        decreases n - i,
    {
        let c = list.get_char(i);
        proof {
            assert(list@.take(i + 1) =~= list@.take(i as int).push(c));
            lemma_split_push(list@.take(i as int), c, ';');
        }
        if c == ';' {
            let piece = list.substring_char(start, i);
            pieces.push(owned(piece));
            proof {
                assert(pieces@.map_values(|f: String| f@) =~= pieces@.drop_last().map_values(|f: String| f@).push(
                    list@.subrange(start as int, i as int),
                ));
                assert(list@.subrange(i + 1, i + 1) =~= Seq::<char>::empty());
            }
            start = i + 1;
        } else {
            proof {
                assert(list@.subrange(start as int, i + 1) =~= list@.subrange(start as int, i as int).push(c));
            }
        }
        i = i + 1;
    }
    let last = list.substring_char(start, n);
    pieces.push(owned(last));
    proof {
        assert(list@.take(n as int) =~= list@);
        assert(pieces@.map_values(|f: String| f@) =~= split_on(list@, ';'));
    }
    let ghost all = pieces@.map_values(|f: String| f@);
    let mut out: Vec<String> = Vec::new();
    let mut k: usize = 0;
    while k < pieces.len()
        invariant
            k <= pieces@.len(),
            all == pieces@.map_values(|f: String| f@),
            out@.map_values(|f: String| f@) == all.take(k as int).map_values(trim_fn()).filter(nonempty_fn()),
        decreases pieces@.len() - k,
    {
        let t = trim_text(pieces[k].as_str());
        let ghost before = out@;
        proof {
            let m = all.take(k as int).map_values(trim_fn());
            assert(all.take(k + 1).map_values(trim_fn()) =~= m.push(trimmed(all[k as int])));
            assert(m.push(trimmed(all[k as int])).drop_last() =~= m);
            reveal(Seq::filter);
        }
        if t.unicode_len() > 0 {
            out.push(owned(t));
            proof {
                assert(out@.map_values(|f: String| f@) =~= before.map_values(|f: String| f@).push(t@));
            }
        }
        k = k + 1;
    }
    proof {
        assert(all.take(k as int) =~= all);
    }
    out
}

/// The startup script: the contents of the files that could be read, each followed by a
/// newline; when that is empty, the list of files itself.
pub open spec fn combined_script(list: Option<Seq<char>>, contents: Seq<Seq<char>>) -> Seq<char> {
    let full = joined_lines(contents);
    if full.len() > 0 {
        full
    } else {
        match list {
            Some(l) => l,
            None => Seq::empty(),
        }
    }
}

/// Each text followed by a newline, one after the other.
pub open spec fn joined_lines(contents: Seq<Seq<char>>) -> Seq<char>
    decreases contents.len(),
{
    if contents.len() == 0 {
        Seq::empty()
    } else {
        joined_lines(contents.drop_last()) + contents.last() + seq!['\n']
    }
}

/// Puts the startup script together from the contents of its files.
pub fn combine_scripts(list: Option<&str>, contents: &[String]) -> (r: String)
    ensures
        r@ == combined_script(opt_text(list), contents@.map_values(|c: String| c@)),
{
    let ghost cs = contents@.map_values(|c: String| c@);
    let mut full = String::new();
    let mut k: usize = 0;
    while k < contents.len()
        invariant
            k <= contents@.len(),
            cs == contents@.map_values(|c: String| c@),
            full@ == joined_lines(cs.take(k as int)),
        decreases contents@.len() - k,
    {
        proof {
            assert(cs.take(k + 1).drop_last() =~= cs.take(k as int));
            reveal_strlit("\n");
            assert("\n"@ =~= seq!['\n']);
        }
        full = full.concat(contents[k].as_str()).concat("\n");
        k = k + 1;
    }
    proof {
        assert(cs.take(k as int) =~= cs);
        reveal_strlit("");
    }
    if full.unicode_len() > 0 {
        full
    } else {
        match list {
            Some(l) => owned(l),
            None => owned(""),
        }
    }
}


/// The statement that records one pick of the prefill file: event, bettor and golfer are
/// looked up by the parameters 1 to 3; the step factor is parameter 4 when the pick has
/// one, else empty.
pub open spec fn pick_insert_text(has_step_factor: bool) -> Seq<char> {
    "INSERT INTO event_user_player (event_id, user_id, golfer_id, score_view_step_factor) select (select event_id from event where espn_id = ?1),(select user_id from bettor where name = ?2),(select golfer_id from golfer where espn_id = ?3)"@
        + (if has_step_factor { ", ?4"@ } else { ", NULL"@ }) + ";"@
}

/// The statement that records one pick of the prefill file.
pub fn pick_insert_query(has_step_factor: bool) -> (r: String)
    ensures
        r@ == pick_insert_text(has_step_factor),
{
    let columns = owned("(event_id, user_id, golfer_id, score_view_step_factor)");
    let values = owned(
        " select (select event_id from event where espn_id = ?1),(select user_id from bettor where name = ?2),(select golfer_id from golfer where espn_id = ?3)",
    );
    let values = if has_step_factor {
        values.concat(", ?4")
    } else {
        values.concat(", NULL")
    };
    let r = owned("INSERT INTO event_user_player ").concat(columns.as_str()).concat(values.as_str()).concat(";");
    proof {
        reveal_strlit("INSERT INTO event_user_player (event_id, user_id, golfer_id, score_view_step_factor) select (select event_id from event where espn_id = ?1),(select user_id from bettor where name = ?2),(select golfer_id from golfer where espn_id = ?3)");
        reveal_strlit("INSERT INTO event_user_player ");
        reveal_strlit("(event_id, user_id, golfer_id, score_view_step_factor)");
        reveal_strlit(" select (select event_id from event where espn_id = ?1),(select user_id from bettor where name = ?2),(select golfer_id from golfer where espn_id = ?3)");
        assert(r@ =~= pick_insert_text(has_step_factor));
    }
    r
}

} // verus!
