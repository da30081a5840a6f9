use vstd::prelude::*;

use crate::db::{row_get, CustomDbRow, RowValues};
use crate::json::{json_get, parse_json, parsed_json, JsonValue};
use crate::text::{owned, parse_i32, parsed_i32, str_equal, trim_text, trimmed};

verus! {

/// A golfer that can be picked on the admin page.
#[derive(Debug, Clone)]
pub struct Player {
    pub id: i32,
    pub name: String,
}

/// A bettor that can pick golfers on the admin page.
#[derive(Debug, Clone)]
pub struct Bettor {
    pub uid: i32,
    pub name: String,
}

impl Player {
    /// The golfers offered by the admin page.
    pub fn test_data() -> (r: Vec<Player>)
        ensures
            r@.len() == 2,
            r@[0].id == 1 && r@[0].name@ == "Player1"@,
            r@[1].id == 2 && r@[1].name@ == "Player2"@,
    {
        let mut v: Vec<Player> = Vec::new();
        v.push(Player { id: 1, name: owned("Player1") });
        v.push(Player { id: 2, name: owned("Player2") });
        v
    }
}

impl Bettor {
    /// The bettors offered by the admin page.
    pub fn test_data() -> (r: Vec<Bettor>)
        ensures
            r@.len() == 2,
            r@[0].uid == 1 && r@[0].name@ == "Bettor1"@,
            r@[1].uid == 2 && r@[1].name@ == "Bettor2"@,
    {
        let mut v: Vec<Bettor> = Vec::new();
        v.push(Bettor { uid: 1, name: owned("Bettor1") });
        v.push(Bettor { uid: 2, name: owned("Bettor2") });
        v
    }
}

/// One submitted row of the admin page: a golfer, a bettor and a round.
#[derive(Debug)]
pub struct PlayerBettorRow {
    pub row_entry: i32,
    pub player: Player,
    pub bettor: Bettor,
    pub round: i32,
}

/// How many times the table creation was asked for.
#[derive(Debug)]
pub struct TimesRun {
    pub times_run: i32,
}

/// One submitted row of the admin page, by identifiers.
#[derive(Debug)]
pub struct RowData {
    pub row_entry: i32,
    pub player_id: i32,
    pub bettor_id: i32,
    pub round: i32,
}

/// A database object that is missing.
#[derive(Debug, Clone)]
pub struct MissingDbObjects {
    pub missing_object: String,
}

/// A database table that is missing.
#[derive(Debug, Clone)]
pub struct MissingTables {
    pub missing_table: String,
}

/// Why a JSON value could not be read as an `i32`.
#[derive(Clone, Copy, Debug, PartialEq, Eq, Structural)]
pub enum IntOrStringError {
    /// A number that is no integer in the range of an `i64`.
    InvalidNumber,
    /// A string that is no decimal `i32`.
    InvalidText,
    /// Neither a number nor a string.
    Neither,
}

/// A JSON number or string read as an `i32`: a number that fits in an `i64` is cut down to
/// its low 32 bits (`as i32`), a string is read as a decimal `i32`.
pub open spec fn int_or_string_value(v: JsonValue) -> Result<i32, IntOrStringError> {
    match v {
        JsonValue::Number(Some(n)) => Ok(n as i32),
        JsonValue::Number(None) => Err(IntOrStringError::InvalidNumber),
        JsonValue::String(s) => match parsed_i32(s@) {
            Some(x) => Ok(x),
            None => Err(IntOrStringError::InvalidText),
        },
        _ => Err(IntOrStringError::Neither),
    }
}

/// Reads a JSON number or string as an `i32`.
pub fn deserialize_int_or_string(v: &JsonValue) -> (r: Result<i32, IntOrStringError>)
    ensures
        r == int_or_string_value(*v),
{
    match v {
        JsonValue::Number(Some(n)) => Ok(*n as i32),
        JsonValue::Number(None) => Err(IntOrStringError::InvalidNumber),
        JsonValue::String(s) => match parse_i32(s.as_str()) {
            Some(x) => Ok(x),
            None => Err(IntOrStringError::InvalidText),
        },
        _ => Err(IntOrStringError::Neither),
    }
}

/// The count read from one record: an object's `times_run` member, or the single element
/// of a one-element array, each a number or a string.
pub open spec fn times_run_record(v: JsonValue) -> Option<i32> {
    match v {
        JsonValue::Object(_) => match json_get(v, "times_run"@) {
            Some(m) => match int_or_string_value(m) {
                Ok(x) => Some(x),
                Err(_) => None,
            },
            None => None,
        },
        JsonValue::Array(items) => if items@.len() == 1 {
            match int_or_string_value(items@[0]) {
                Ok(x) => Some(x),
                Err(_) => None,
            }
        } else {
            None
        },
        _ => None,
    }
}

/// Every element of `items` is a record with a count.
pub open spec fn all_records(items: Seq<JsonValue>) -> bool {
    forall|k: int| 0 <= k < items.len() ==> (#[trigger] times_run_record(items[k])) is Some
}

/// The count read from a submitted value: one record, or else a nonempty array of records
/// of which the first counts.
pub open spec fn times_run_value(v: JsonValue) -> Option<i32> {
    match times_run_record(v) {
        Some(x) => Some(x),
        None => match v {
            JsonValue::Array(items) => if items@.len() > 0 && all_records(items@) {
                times_run_record(items@[0])
            } else {
                None
            },
            _ => None,
        },
    }
}

fn times_run_of_record(v: &JsonValue) -> (r: Option<i32>)
    ensures
        r == times_run_record(*v),
{
    match v {
        JsonValue::Object(_) => match v.get("times_run") {
            Some(m) => match deserialize_int_or_string(m) {
                Ok(x) => Some(x),
                Err(_) => None,
            },
            None => None,
        },
        JsonValue::Array(items) => {
            if items.len() == 1 {
                match deserialize_int_or_string(&items[0]) {
                    Ok(x) => Some(x),
                    Err(_) => None,
                }
            } else {
                None
            }
        },
        _ => None,
    }
}

/// Reads the count of table creations from the text submitted with a request: the count of
/// the document it holds (see `times_run_from_json`); `None` where the text is not JSON.
pub fn parse_into_times_run(input: &str) -> (r: Option<TimesRun>)
    ensures
        (match parsed_json(input@) {
            Some(j) => times_run_value(j),
            None => None,
        }) == (match r {
            Some(t) => Some(t.times_run),
            None => None,
        }),
{
    match parse_json(input) {
        Some(v) => times_run_from_json(&v),
        None => None,
    }
}

/// Reads the count of table creations from the submitted value.
pub fn times_run_from_json(v: &JsonValue) -> (r: Option<TimesRun>)
    ensures
        times_run_value(*v) == (match r {
            Some(t) => Some(t.times_run),
            None => None,
        }),
{
    match times_run_of_record(v) {
        Some(x) => Some(TimesRun { times_run: x }),
        None => match v {
            JsonValue::Array(items) => {
                if items.len() == 0 {
                    proof {
                        assert(times_run_value(*v) == None::<i32>);
                    }
                    return None;
                }
                let mut k: usize = 0;
                proof {
                    assert(times_run_value(*v) == (if all_records(items@) {
                        times_run_record(items@[0])
                    } else {
                        None
                    }));
                }
                while k < items.len()
                    invariant
                        k <= items@.len(),
                        all_records(items@.take(k as int)),
                        items@.len() > 0,
                        times_run_value(*v) == (if all_records(items@) {
                            times_run_record(items@[0])
                        } else {
                            None
                        }),
                    decreases items@.len() - k,
                {
                    if times_run_of_record(&items[k]).is_none() {
                        proof {
                            assert(!all_records(items@)) by {
                                assert(times_run_record(items@[k as int]) is None);
                            }
                            assert(times_run_value(*v) == None::<i32>);
                        }
                        return None;
                    }
                    proof {
                        assert forall|j: int| 0 <= j < k + 1 implies (#[trigger] times_run_record(
                            items@.take(k + 1)[j],
                        )) is Some by {
                            if j < k {
                                assert(items@.take(k + 1)[j] == items@.take(k as int)[j]);
                            }
                        }
                    }
                    k = k + 1;
                }
                proof {
                    assert(items@.take(k as int) =~= items@);
                    assert(times_run_value(*v) == times_run_record(items@[0]));
                }
                match times_run_of_record(&items[0]) {
                    Some(x) => Some(TimesRun { times_run: x }),
                    None => None,
                }
            },
            _ => None,
        },
    }
}

/// The count of table creations after one more.
pub fn next_times_run(t: &TimesRun) -> (r: i32)
    requires
        t.times_run < i32::MAX,
    ensures
        r == t.times_run + 1,
{
    t.times_run + 1
}

/// Why a submitted row could not be resolved.
#[derive(Clone, Copy, Debug, PartialEq, Eq, Structural)]
pub enum RowLookupError {
    InvalidPlayer(i32),
    InvalidBettor(i32),
}

impl RowLookupError {
    /// The message shown for the error.
    pub fn message(&self) -> (r: String)
        ensures
            r@ == (match *self {
                RowLookupError::InvalidPlayer(id) => "Invalid player ID: "@ + crate::text::decimal_text(id as int),
                RowLookupError::InvalidBettor(id) => "Invalid bettor ID: "@ + crate::text::decimal_text(id as int),
            }),
    {
        match self {
            RowLookupError::InvalidPlayer(id) => owned("Invalid player ID: ").concat(
                crate::text::i64_text(*id as i64).as_str(),
            ),
            RowLookupError::InvalidBettor(id) => owned("Invalid bettor ID: ").concat(
                crate::text::i64_text(*id as i64).as_str(),
            ),
        }
    }
}

/// The position of the last golfer in `players` with identifier `id`.
pub open spec fn last_player(players: Seq<Player>, id: i32) -> Option<int>
    decreases players.len(),
{
    if players.len() == 0 {
        None
    } else if players.last().id == id {
        Some(players.len() - 1)
    } else {
        last_player(players.drop_last(), id)
    }
}

/// The position of the last bettor in `bettors` with identifier `uid`.
pub open spec fn last_bettor(bettors: Seq<Bettor>, uid: i32) -> Option<int>
    decreases bettors.len(),
{
    if bettors.len() == 0 {
        None
    } else if bettors.last().uid == uid {
        Some(bettors.len() - 1)
    } else {
        last_bettor(bettors.drop_last(), uid)
    }
}

/// The error for the first row of `rows` whose golfer or bettor is unknown, the golfer
/// checked first.
pub open spec fn first_lookup_error(rows: Seq<RowData>, players: Seq<Player>, bettors: Seq<Bettor>) -> Option<RowLookupError>
    decreases rows.len(),
{
    if rows.len() == 0 {
        None
    } else if last_player(players, rows[0].player_id) is None {
        Some(RowLookupError::InvalidPlayer(rows[0].player_id))
    } else if last_bettor(bettors, rows[0].bettor_id) is None {
        Some(RowLookupError::InvalidBettor(rows[0].bettor_id))
    } else {
        first_lookup_error(rows.drop_first(), players, bettors)
    }
}

/// `out` is `row` with its golfer and bettor looked up.
pub open spec fn resolved_row(out: PlayerBettorRow, row: RowData, players: Seq<Player>, bettors: Seq<Bettor>) -> bool {
    &&& out.row_entry == row.row_entry
    &&& out.round == row.round
    &&& last_player(players, row.player_id) matches Some(p) && out.player.id == players[p].id
        && out.player.name@ == players[p].name@
    &&& last_bettor(bettors, row.bettor_id) matches Some(b) && out.bettor.uid == bettors[b].uid
        && out.bettor.name@ == bettors[b].name@
}

proof fn lemma_last_player_range(players: Seq<Player>, id: i32)
    ensures
        last_player(players, id) matches Some(p) ==> 0 <= p < players.len() && players[p].id == id,
    decreases players.len(),
{
    if players.len() > 0 {
        lemma_last_player_range(players.drop_last(), id);
    }
}

proof fn lemma_last_bettor_range(bettors: Seq<Bettor>, uid: i32)
    ensures
        last_bettor(bettors, uid) matches Some(b) ==> 0 <= b < bettors.len() && bettors[b].uid == uid,
    decreases bettors.len(),
{
    if bettors.len() > 0 {
        lemma_last_bettor_range(bettors.drop_last(), uid);
    }
}

fn find_player(players: &[Player], id: i32) -> (r: Option<usize>)
    ensures
        match r {
            Some(p) => last_player(players@, id) == Some(p as int) && p < players@.len(),
            None => last_player(players@, id) is None,
        },
{
    let mut k: usize = players.len();
    proof {
        assert(players@.take(k as int) =~= players@);
    }
    while k > 0
        invariant
            k <= players@.len(),
            last_player(players@, id) == last_player(players@.take(k as int), id),
        decreases k,
    {
        proof {
            assert(players@.take(k as int).drop_last() =~= players@.take(k - 1));
        }
        if players[k - 1].id == id {
            return Some(k - 1);
        }
        k = k - 1;
    }
    None
}

fn find_bettor(bettors: &[Bettor], uid: i32) -> (r: Option<usize>)
    ensures
        match r {
            Some(b) => last_bettor(bettors@, uid) == Some(b as int) && b < bettors@.len(),
            None => last_bettor(bettors@, uid) is None,
        },
{
    let mut k: usize = bettors.len();
    proof {
        assert(bettors@.take(k as int) =~= bettors@);
    }
    while k > 0
        invariant
            k <= bettors@.len(),
            last_bettor(bettors@, uid) == last_bettor(bettors@.take(k as int), uid),
        decreases k,
    {
        proof {
            assert(bettors@.take(k as int).drop_last() =~= bettors@.take(k - 1));
        }
        if bettors[k - 1].uid == uid {
            return Some(k - 1);
        }
        k = k - 1;
    }
    None
}

/// Looks up the golfer and the bettor of each submitted row, in order (the last entry with
/// a given identifier counts); fails on the first row whose golfer, then bettor, is unknown.
pub fn resolve_rows(rows: &[RowData], players: &[Player], bettors: &[Bettor]) -> (r: Result<Vec<PlayerBettorRow>, RowLookupError>)
    ensures
        match r {
            Ok(out) => first_lookup_error(rows@, players@, bettors@) is None && out@.len() == rows@.len()
                && forall|k: int| 0 <= k < out@.len() ==> resolved_row(#[trigger] out@[k], rows@[k], players@, bettors@),
            Err(e) => first_lookup_error(rows@, players@, bettors@) == Some(e),
        },
{
    let mut out: Vec<PlayerBettorRow> = Vec::new();
    let mut k: usize = 0;
    proof {
        assert(rows@.skip(0) =~= rows@);
    }
    while k < rows.len()
        invariant
            k <= rows@.len(),
            out@.len() == k,
            first_lookup_error(rows@, players@, bettors@) == first_lookup_error(rows@.skip(k as int), players@, bettors@),
            forall|j: int| 0 <= j < k ==> resolved_row(#[trigger] out@[j], rows@[j], players@, bettors@),
        decreases rows@.len() - k,
    {
        let row = &rows[k];
        proof {
            assert(rows@.skip(k as int)[0] == rows@[k as int]);
            assert(rows@.skip(k as int).drop_first() =~= rows@.skip(k + 1));
        }
        let p = match find_player(players, row.player_id) {
            Some(p) => p,
            None => {
                return Err(RowLookupError::InvalidPlayer(row.player_id));
            },
        };
        let b = match find_bettor(bettors, row.bettor_id) {
            Some(b) => b,
            None => {
                return Err(RowLookupError::InvalidBettor(row.bettor_id));
            },
        };
        let item = PlayerBettorRow {
            row_entry: row.row_entry,
            player: Player { id: players[p].id, name: players[p].name.clone() },
            bettor: Bettor { uid: bettors[b].uid, name: bettors[b].name.clone() },
            round: row.round,
        };
        out.push(item);
        proof {
            assert(resolved_row(out@[k as int], rows@[k as int], players@, bettors@));
        }
        k = k + 1;
    }
    proof {
        assert(rows@.skip(k as int).len() == 0);
    }
    Ok(out)
}

/// Whether `s` is exactly 14 ASCII letters and digits.
pub open spec fn is_alnum14(s: Seq<char>) -> bool {
    &&& s.len() == 14
    &&& forall|i: int|
        0 <= i < s.len() ==> ('a' <= #[trigger] s[i] <= 'z' || 'A' <= s[i] <= 'Z' || '0' <= s[i]
            <= '9')
}

/// The pattern that admin tokens must match.
pub open spec fn alnum14_pattern() -> Seq<char> {
    "^[a-zA-Z0-9]{14}$"@
}

/// Whether the regular expression `pattern` matches somewhere in `haystack`, as the `regex`
/// crate decides it; `None` when `pattern` is no valid expression.
pub uninterp spec fn regex_is_match(pattern: Seq<char>, haystack: Seq<char>) -> Option<bool>;

/// `regex::Regex::new(pattern)` followed by `Regex::is_match(haystack)`: the contract names
/// the outcome, and for the admin token pattern `^[a-zA-Z0-9]{14}$` states what the `regex`
/// documentation gives: the pattern compiles, and it matches exactly the texts of 14 ASCII
/// letters and digits (`^` and `$` anchor at the ends of the text, the class is ASCII).
#[verifier::external_body]
fn regex_matches(pattern: &str, haystack: &str) -> (r: Option<bool>)
    ensures
        r == regex_is_match(pattern@, haystack@),
        pattern@ == alnum14_pattern() ==> r == Some(is_alnum14(haystack@)),
{
    match regex::Regex::new(pattern) {
        Ok(re) => Some(re.is_match(haystack)),
        Err(_) => None,
    }
}

/// An admin token: 14 ASCII letters and digits, or the placeholder `default`.
#[derive(Debug)]
pub struct AlphaNum14(String);

impl View for AlphaNum14 {
    type V = Seq<char>;

    closed spec fn view(&self) -> Seq<char> {
        self.0@
    }
}

impl AlphaNum14 {
    /// A token is well formed: 14 letters and digits, or `default`.
    pub closed spec fn wf(&self) -> bool {
        is_alnum14(self.0@) || self.0@ == "default"@
    }

    /// The token `input` if it is 14 ASCII letters and digits.
    pub fn new(input: &str) -> (r: Option<AlphaNum14>)
        ensures
            r is Some <==> is_alnum14(input@),
            r matches Some(a) ==> a@ == input@ && a.wf(),
    {
        proof {
            reveal_strlit("^[a-zA-Z0-9]{14}$");
        }
        match regex_matches("^[a-zA-Z0-9]{14}$", input) {
            Some(true) => Some(AlphaNum14(owned(input))),
            _ => None,
        }
    }

    /// The text of the token.
    pub fn value(&self) -> (r: &str)
        ensures
            r@ == self@,
    {
        self.0.as_str()
    }

    /// The placeholder token `default`.
    pub fn default() -> (r: AlphaNum14)
        ensures
            r@ == "default"@,
            r.wf(),
    {
        AlphaNum14(owned("default"))
    }

    /// Reads a token, failing with `Invalid input` unless it is 14 ASCII letters and digits.
    pub fn parse(input: &str) -> (r: Result<AlphaNum14, String>)
        ensures
            r is Ok <==> is_alnum14(input@),
            r matches Ok(a) ==> a@ == input@ && a.wf(),
            r matches Err(msg) ==> msg@ == "Invalid input"@,
    {
        match AlphaNum14::new(input) {
            Some(a) => Ok(a),
            None => Err(owned("Invalid input")),
        }
    }
}

/// The pages of the admin area.
#[derive(Clone, Copy, Debug, PartialEq, Eq, Structural)]
pub enum AdminPage {
    Landing,
    TablesAndConstraints,
    ZeroX,
}

/// The page named by `input`, the landing page for anything unknown.
pub open spec fn admin_page_of(input: Seq<char>) -> AdminPage {
    if input == "01"@ {
        AdminPage::TablesAndConstraints
    } else if input == "0x"@ {
        AdminPage::ZeroX
    } else {
        AdminPage::Landing
    }
}

/// The number of a page, as it stands in the `p` parameter.
pub open spec fn page_number(p: AdminPage) -> Seq<char> {
    match p {
        AdminPage::Landing => "00"@,
        AdminPage::TablesAndConstraints => "01"@,
        AdminPage::ZeroX => "0x"@,
    }
}

impl AdminPage {
    /// The page named by `input`; defaults to the landing page.
    pub fn parse(input: &str) -> (r: AdminPage)
        ensures
            r == admin_page_of(input@),
    {
        proof {
            lemma_page_numbers_differ();
        }
        if str_equal(input, "00") {
            AdminPage::Landing
        } else if str_equal(input, "01") {
            AdminPage::TablesAndConstraints
        } else if str_equal(input, "0x") {
            AdminPage::ZeroX
        } else {
            AdminPage::Landing
        }
    }

    /// The number of the page.
    pub fn get_page_number(&self) -> (r: &'static str)
        ensures
            r@ == page_number(*self),
    {
        match self {
            AdminPage::Landing => "00",
            AdminPage::TablesAndConstraints => "01",
            AdminPage::ZeroX => "0x",
        }
    }
}

proof fn lemma_page_numbers_differ()
    ensures
        "00"@ != "01"@,
        "00"@ != "0x"@,
        "01"@ != "0x"@,
{
    reveal_strlit("00");
    reveal_strlit("01");
    reveal_strlit("0x");
    assert("00"@[1] != "01"@[1]);
    assert("00"@[1] != "0x"@[1]);
    assert("01"@[1] != "0x"@[1]);
}

/// Reading a page's number gives the page back.
pub proof fn lemma_admin_page_round_trip(p: AdminPage)
    ensures
        admin_page_of(page_number(p)) == p,
{
    lemma_page_numbers_differ();
}

/// Every text names the page whose number it is, or else the landing page.
pub proof fn lemma_admin_page_parse(input: Seq<char>)
    ensures
        page_number(admin_page_of(input)) == input || admin_page_of(input) == AdminPage::Landing,
{
}

/// The kinds of database objects that the admin pages check.
#[derive(Clone, Copy, Debug, PartialEq, Eq, Structural)]
pub enum CheckType {
    Table,
    Constraint,
}

/// The element names and texts of the admin page for one kind of database object.
#[derive(Debug)]
pub struct CheckTypeData {
    pub missing_item_id: &'static str,
    pub all_items_setup_p: &'static str,
    pub all_items_not_setup_p: String,
    pub create_missing_obj_id: &'static str,
    pub create_missing_obj_p: &'static str,
    pub create_obj_results_id: &'static str,
}

/// The names and texts for tables, or for constraints.
pub fn get_check_type_data(check_type: &CheckType) -> (r: CheckTypeData)
    ensures
        match *check_type {
            CheckType::Table => {
                &&& r.missing_item_id@ == "admin01_missing_tables"@
                &&& r.all_items_setup_p@ == "All tables are setup."@
                &&& r.all_items_not_setup_p@ == "Not all tables are setup."@
                &&& r.create_missing_obj_id@ == "create-missing-tables"@
                &&& r.create_missing_obj_p@ == "Create missing tables"@
                &&& r.create_obj_results_id@ == "create-table-results"@
            },
            CheckType::Constraint => {
                &&& r.missing_item_id@ == "admin01_missing_constraints"@
                &&& r.all_items_setup_p@ == "All constraints are setup."@
                &&& r.all_items_not_setup_p@ == "Not all constraints are setup."@
                &&& r.create_missing_obj_id@ == "create-missing-constraints"@
                &&& r.create_missing_obj_p@ == "Create missing constraints"@
                &&& r.create_obj_results_id@ == "create-constraint-results"@
            },
        },
{
    match check_type {
        CheckType::Table => CheckTypeData {
            missing_item_id: "admin01_missing_tables",
            all_items_setup_p: "All tables are setup.",
            all_items_not_setup_p: owned("Not all tables are setup."),
            create_missing_obj_id: "create-missing-tables",
            create_missing_obj_p: "Create missing tables",
            create_obj_results_id: "create-table-results",
        },
        CheckType::Constraint => CheckTypeData {
            missing_item_id: "admin01_missing_constraints",
            all_items_setup_p: "All constraints are setup.",
            all_items_not_setup_p: owned("Not all constraints are setup."),
            create_missing_obj_id: "create-missing-constraints",
            create_missing_obj_p: "Create missing constraints",
            create_obj_results_id: "create-constraint-results",
        },
    }
}

/// What an admin request is answered with.
#[derive(Clone, Copy, Debug, PartialEq, Eq, Structural)]
pub enum AdminView {
    /// The token does not match the configured one.
    Unauthorized,
    /// The landing page.
    Landing,
    /// The rows submitted on page `0x`.
    ReceivedData,
    /// The form of page `0x`.
    ZeroXDefault,
    /// Create the missing tables (page `01`).
    CreateMissingTables,
    /// Check whether the tables exist (page `01`, from the landing page).
    CheckTables,
    /// Check whether the constraints exist (page `01`, from the landing page).
    CheckConstraints,
    /// The default view of page `01`.
    TablesDefault,
}

/// The parameters of an admin request that decide its answer: which of the optional
/// parameters are present.
#[derive(Clone, Copy, Debug, PartialEq, Eq, Structural)]
pub struct AdminFlags {
    pub has_data: bool,
    pub has_missing_tables: bool,
    pub from_landing_tables: bool,
    pub from_landing_constraints: bool,
}

/// The answer to an admin request with token parameter `token`, page parameter `page`, the
/// configured token `env_token` (when one is set) and the presence of the other parameters.
pub open spec fn admin_view(token: Seq<char>, page: Seq<char>, env_token: Option<Seq<char>>, flags: AdminFlags) -> AdminView {
    let t = trimmed(token);
    let shown = if is_alnum14(t) { t } else { "default"@ };
    match env_token {
        Some(e) if e != shown => AdminView::Unauthorized,
        _ => match admin_page_of(trimmed(page)) {
            AdminPage::Landing => AdminView::Landing,
            AdminPage::ZeroX => if flags.has_data {
                AdminView::ReceivedData
            } else {
                AdminView::ZeroXDefault
            },
            AdminPage::TablesAndConstraints => if flags.has_missing_tables {
                AdminView::CreateMissingTables
            } else if flags.from_landing_tables {
                AdminView::CheckTables
            } else if flags.from_landing_constraints {
                AdminView::CheckConstraints
            } else {
                AdminView::TablesDefault
            },
        },
    }
}

/// Dispatches the requests of the admin area.
#[derive(Debug, Clone)]
pub struct AdminRouter {}

impl AdminRouter {
    pub fn new() -> (r: AdminRouter) {
        AdminRouter {}
    }

    /// Decides the answer to an admin request. The token is trimmed and, when it is no valid
    /// token, taken as `default`; the page parameter is trimmed.
    pub fn route(&self, token: &str, page: &str, env_token: Option<&str>, flags: AdminFlags) -> (r: AdminView)
        ensures
            r == admin_view(token@, page@, match env_token {
                Some(e) => Some(e@),
                None => None,
            }, flags),
    {
        let t = trim_text(token);
        let parsed = match AlphaNum14::parse(t) {
            Ok(a) => a,
            Err(_) => AlphaNum14::default(),
        };
        match env_token {
            Some(e) => {
                if !str_equal(e, parsed.value()) {
                    return AdminView::Unauthorized;
                }
            },
            None => {},
        }
        match AdminPage::parse(trim_text(page)) {
            AdminPage::Landing => AdminView::Landing,
            AdminPage::ZeroX => {
                if flags.has_data {
                    AdminView::ReceivedData
                } else {
                    AdminView::ZeroXDefault
                }
            },
            AdminPage::TablesAndConstraints => {
                if flags.has_missing_tables {
                    AdminView::CreateMissingTables
                } else if flags.from_landing_tables {
                    AdminView::CheckTables
                } else if flags.from_landing_constraints {
                    AdminView::CheckConstraints
                } else {
                    AdminView::TablesDefault
                }
            },
        }
    }
}


/// Whether a row of the setup check reports its object as existing: its `ex` column holds
/// `true`.
pub open spec fn row_exists(row: CustomDbRow) -> bool {
    row_get(row, "ex"@) == Some(RowValues::Bool(true))
}

/// Why the missing objects could not be read.
#[derive(Clone, Copy, Debug, PartialEq, Eq, Structural)]
pub enum MissingObjectsError {
    /// A row of a missing object has no `tbl` column.
    NoTbl,
    /// The `tbl` column of a row of a missing object holds no text.
    NotAString,
}

/// The names of the objects that the rows report as missing, in order, or the error for
/// the first such row whose name cannot be read.
pub open spec fn missing_names(rows: Seq<CustomDbRow>) -> Result<Seq<Seq<char>>, MissingObjectsError>
    decreases rows.len(),
{
    if rows.len() == 0 {
        Ok(Seq::empty())
    } else if row_exists(rows[0]) {
        missing_names(rows.drop_first())
    } else {
        match row_get(rows[0], "tbl"@) {
            None => Err(MissingObjectsError::NoTbl),
            Some(RowValues::Text(t)) => match missing_names(rows.drop_first()) {
                Ok(rest) => Ok(seq![t@] + rest),
                Err(e) => Err(e),
            },
            Some(_) => Err(MissingObjectsError::NotAString),
        }
    }
}

proof fn lemma_missing_names_skip(rows: Seq<CustomDbRow>, k: int)
    requires
        0 <= k < rows.len(),
    ensures
        missing_names(rows.skip(k)) == (if row_exists(rows[k]) {
            missing_names(rows.skip(k + 1))
        } else {
            match row_get(rows[k], "tbl"@) {
                None => Err(MissingObjectsError::NoTbl),
                Some(RowValues::Text(t)) => match missing_names(rows.skip(k + 1)) {
                    Ok(rest) => Ok(seq![t@] + rest),
                    Err(e) => Err(e),
                },
                Some(_) => Err(MissingObjectsError::NotAString),
            }
        }),
{
    assert(rows.skip(k)[0] == rows[k]);
    assert(rows.skip(k).drop_first() =~= rows.skip(k + 1));
}

/// The names of the database objects that the setup check reports as missing.
pub fn missing_objects(rows: &[CustomDbRow]) -> (r: Result<Vec<String>, MissingObjectsError>)
    ensures
        match r {
            Ok(names) => missing_names(rows@) == Ok::<Seq<Seq<char>>, MissingObjectsError>(
                names@.map_values(|n: String| n@),
            ),
            Err(e) => missing_names(rows@) == Err::<Seq<Seq<char>>, MissingObjectsError>(e),
        },
{
    let mut out: Vec<String> = Vec::new();
    let mut k: usize = 0;
    proof {
        assert(rows@.skip(0) =~= rows@);
    }
    while k < rows.len()
        invariant
            k <= rows@.len(),
            missing_names(rows@) == match missing_names(rows@.skip(k as int)) {
                Ok(rest) => Ok(out@.map_values(|n: String| n@) + rest),
                Err(e) => Err::<Seq<Seq<char>>, MissingObjectsError>(e),
            },
        decreases rows@.len() - k,
    {
        proof {
            lemma_missing_names_skip(rows@, k as int);
        }
        let exists = match rows[k].get("ex") {
            Some(RowValues::Bool(b)) => *b,
            _ => false,
        };
        if !exists {
            match rows[k].get("tbl") {
                None => {
                    return Err(MissingObjectsError::NoTbl);
                },
                Some(RowValues::Text(t)) => {
                    let ghost before = out@;
                    out.push(t.clone());
                    proof {
                        assert(out@.map_values(|n: String| n@) =~= before.map_values(|n: String| n@).push(t@));
                        match missing_names(rows@.skip(k + 1)) {
                            Ok(rest) => {
                                assert(before.map_values(|n: String| n@) + (seq![t@] + rest)
                                    =~= out@.map_values(|n: String| n@) + rest);
                            },
                            Err(_) => {},
                        }
                    }
                },
                Some(_) => {
                    return Err(MissingObjectsError::NotAString);
                },
            }
        }
        k = k + 1;
    }
    proof {
        assert(rows@.skip(k as int).len() == 0);
        assert(out@.map_values(|n: String| n@) + Seq::<Seq<char>>::empty() =~= out@.map_values(|n: String| n@));
    }
    Ok(out)
}

/// The missing objects as the page hands them to its script: an array of objects with a
/// `missing_object` member each.
pub open spec fn missing_objects_value(names: Seq<Seq<char>>, v: JsonValue) -> bool {
    match v {
        JsonValue::Array(items) => items@.len() == names.len() && forall|k: int|
            0 <= k < names.len() ==> missing_object_entry(#[trigger] items@[k], names[k]),
        _ => false,
    }
}

/// `v` is `{"missing_object": name}`.
pub open spec fn missing_object_entry(v: JsonValue, name: Seq<char>) -> bool {
    match v {
        JsonValue::Object(members) => members@.len() == 1 && members@[0].0@ == "missing_object"@
            && match members@[0].1 {
            JsonValue::String(s) => s@ == name,
            _ => false,
        },
        _ => false,
    }
}

/// The missing objects as a JSON array for the page's script.
pub fn missing_objects_json(names: &[String]) -> (r: JsonValue)
    ensures
        missing_objects_value(names@.map_values(|n: String| n@), r),
{
    let ghost ns = names@.map_values(|n: String| n@);
    let mut items: Vec<JsonValue> = Vec::new();
    let mut k: usize = 0;
    while k < names.len()
        invariant
            k <= names@.len(),
            ns == names@.map_values(|n: String| n@),
            items@.len() == k,
            forall|j: int| 0 <= j < k ==> missing_object_entry(#[trigger] items@[j], ns[j]),
        decreases names@.len() - k,
    {
        let mut members: Vec<(String, JsonValue)> = Vec::new();
        members.push((owned("missing_object"), JsonValue::String(names[k].clone())));
        items.push(JsonValue::Object(members));
        k = k + 1;
    }
    JsonValue::Array(items)
}

/// How the setup part of the tables page ends.
#[derive(Clone, Copy, Debug, PartialEq, Eq, Structural)]
pub enum SetupSummary {
    /// Every object is set up.
    AllSetUp,
    /// Some object is missing, and the detailed page offers a button to create them.
    CreateButton,
    /// Some object is missing (short page).
    NotAllSetUp,
}

/// How the setup part of the tables page ends, given the number of missing objects.
pub fn setup_summary(missing: usize, detailed_output: bool) -> (r: SetupSummary)
    ensures
        r == if missing == 0 {
            SetupSummary::AllSetUp
        } else if detailed_output {
            SetupSummary::CreateButton
        } else {
            SetupSummary::NotAllSetUp
        },
{
    if missing == 0 {
        SetupSummary::AllSetUp
    } else if detailed_output {
        SetupSummary::CreateButton
    } else {
        SetupSummary::NotAllSetUp
    }
}

} // verus!
