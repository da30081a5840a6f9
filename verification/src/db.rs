use vstd::prelude::*;

use crate::admin::{CheckType, MissingDbObjects};
use crate::clock::{elapsed_between, elapsed_nanos};
use crate::text::{owned, str_equal};

verus! {

/// The database engines the scoreboard can use.
#[derive(Clone, Copy, Debug, PartialEq, Eq, Structural)]
pub enum DatabaseType {
    Postgres,
    Sqlite,
}

/// The kinds of database objects.
#[derive(Clone, Copy, Debug, PartialEq, Eq, Structural)]
pub enum ObjType {
    Table,
    Constraint,
}

/// The outcome of the last database operation.
#[derive(Clone, Copy, Debug, PartialEq, Eq, Structural)]
pub enum DatabaseSetupState {
    NoConnection,
    MissingRelations,
    QueryReturnedSuccessfully,
    QueryError,
}

/// A value of one column of a result row. A timestamp is kept as seconds and nanoseconds
/// since the epoch, without time zone; `Other` stands for a value that the scoreboard does
/// not read (a null, a float, a document or bytes).
#[derive(Debug, Clone)]
pub enum RowValues {
    Int(i64),
    Text(String),
    Bool(bool),
    Timestamp(i64, u32),
    Other,
}

impl RowValues {
    /// The integer held, if any.
    pub fn as_int(&self) -> (r: Option<&i64>)
        ensures
            match *self {
                RowValues::Int(v) => r == Some(&v),
                _ => r is None,
            },
    {
        match self {
            RowValues::Int(v) => Some(v),
            _ => None,
        }
    }

    /// The text held, if any.
    pub fn as_text(&self) -> (r: Option<&str>)
        ensures
            match *self {
                RowValues::Text(s) => r matches Some(t) && t@ == s@,
                _ => r is None,
            },
    {
        match self {
            RowValues::Text(s) => Some(s.as_str()),
            _ => None,
        }
    }
}

/// One result row: the column names and the value of each column.
#[derive(Debug, Clone)]
pub struct CustomDbRow {
    pub column_names: Vec<String>,
    pub rows: Vec<RowValues>,
}

/// The position of the first column named `name`.
pub open spec fn column_position(names: Seq<String>, name: Seq<char>) -> Option<int>
    decreases names.len(),
{
    if names.len() == 0 {
        None
    } else if names[0]@ == name {
        Some(0)
    } else {
        match column_position(names.drop_first(), name) {
            Some(i) => Some(i + 1),
            None => None,
        }
    }
}

/// The value of the first column named `name`, when the row has a value there.
pub open spec fn row_get(row: CustomDbRow, name: Seq<char>) -> Option<RowValues> {
    match column_position(row.column_names@, name) {
        Some(i) => if i < row.rows@.len() {
            Some(row.rows@[i])
        } else {
            None
        },
        None => None,
    }
}

proof fn lemma_column_position_range(names: Seq<String>, name: Seq<char>)
    ensures
        column_position(names, name) matches Some(i) ==> 0 <= i < names.len() && names[i]@ == name,
    decreases names.len(),
{
    if names.len() > 0 {
        lemma_column_position_range(names.drop_first(), name);
    }
}

fn find_column(names: &Vec<String>, name: &str) -> (r: Option<usize>)
    ensures
        match r {
            Some(i) => column_position(names@, name@) == Some(i as int),
            None => column_position(names@, name@) is None,
        },
{
    let mut i: usize = 0;
    proof {
        assert(names@.skip(0) =~= names@);
    }
    while i < names.len()
        invariant
            i <= names@.len(),
            column_position(names@, name@) == match column_position(names@.skip(i as int), name@) {
                Some(k) => Some(k + i),
                None => None::<int>,
            },
        decreases names@.len() - i,
    {
        proof {
            assert(names@.skip(i as int)[0] == names@[i as int]);
            assert(names@.skip(i as int).drop_first() =~= names@.skip(i + 1));
        }
        if str_equal(names[i].as_str(), name) {
            return Some(i);
        }
        i = i + 1;
    }
    None
}

impl CustomDbRow {
    /// The value of the first column named `col_name`.
    pub fn get(&self, col_name: &str) -> (r: Option<&RowValues>)
        ensures
            match r {
                Some(v) => row_get(*self, col_name@) == Some(*v),
                None => row_get(*self, col_name@) is None,
            },
    {
        match find_column(&self.column_names, col_name) {
            Some(i) => {
                if i < self.rows.len() {
                    Some(&self.rows[i])
                } else {
                    None
                }
            },
            None => None,
        }
    }
}

/// The rows returned by one query.
#[derive(Debug, Clone)]
pub struct ResultSet {
    pub results: Vec<CustomDbRow>,
}

/// A query and the values bound to its parameters.
#[derive(Debug)]
pub struct QueryAndParams {
    pub query: String,
    pub params: Vec<RowValues>,
}

/// The outcome of a database operation and what it returned.
#[derive(Debug)]
pub struct DatabaseResult<T: Default> {
    pub db_last_exec_state: DatabaseSetupState,
    pub return_result: T,
    pub error_message: Option<String>,
    pub db_object_name: String,
}

impl<T: Default> DatabaseResult<T> {
    /// No connection yet, the default value of `T` (what `T::default` returns), no error and
    /// no object name.
    pub fn default() -> (r: DatabaseResult<T>)
        ensures
            r.db_last_exec_state == DatabaseSetupState::NoConnection,
            r.error_message is None,
            r.db_object_name@ == Seq::<char>::empty(),
            call_ensures(T::default, (), r.return_result),
    {
        proof {
            reveal_strlit("");
        }
        DatabaseResult {
            db_last_exec_state: DatabaseSetupState::NoConnection,
            return_result: T::default(),
            error_message: None,
            db_object_name: owned(""),
        }
    }
}


/// How the value of a column is read, by the type name the database reports.
#[derive(Clone, Copy, Debug, PartialEq, Eq, Structural)]
pub enum ColumnKind {
    Int,
    Text,
    Bool,
    Timestamp,
}

/// The kind of a column of type `column_type` in a database of type `db`; `None` for a type
/// the scoreboard does not read.
pub open spec fn column_kind_of(db: DatabaseType, column_type: Seq<char>) -> Option<ColumnKind> {
    match db {
        DatabaseType::Postgres => if column_type == "INT4"@ || column_type == "INT8"@ || column_type
            == "BIGINT"@ || column_type == "INTEGER"@ || column_type == "INT"@ {
            Some(ColumnKind::Int)
        } else if column_type == "TEXT"@ {
            Some(ColumnKind::Text)
        } else if column_type == "BOOL"@ || column_type == "BOOLEAN"@ {
            Some(ColumnKind::Bool)
        } else if column_type == "TIMESTAMP"@ {
            Some(ColumnKind::Timestamp)
        } else {
            None
        },
        DatabaseType::Sqlite => if column_type == "INTEGER"@ {
            Some(ColumnKind::Int)
        } else if column_type == "TEXT"@ {
            Some(ColumnKind::Text)
        } else if column_type == "BOOLEAN"@ {
            Some(ColumnKind::Bool)
        } else if column_type == "TIMESTAMP"@ {
            Some(ColumnKind::Timestamp)
        } else {
            None
        },
    }
}

/// How a column of type `column_type` is read.
pub fn column_kind(db: DatabaseType, column_type: &str) -> (r: Option<ColumnKind>)
    ensures
        r == column_kind_of(db, column_type@),
{
    match db {
        DatabaseType::Postgres => {
            if str_equal(column_type, "INT4") || str_equal(column_type, "INT8") || str_equal(
                column_type,
                "BIGINT",
            ) || str_equal(column_type, "INTEGER") || str_equal(column_type, "INT") {
                Some(ColumnKind::Int)
            } else if str_equal(column_type, "TEXT") {
                Some(ColumnKind::Text)
            } else if str_equal(column_type, "BOOL") || str_equal(column_type, "BOOLEAN") {
                Some(ColumnKind::Bool)
            } else if str_equal(column_type, "TIMESTAMP") {
                Some(ColumnKind::Timestamp)
            } else {
                None
            }
        },
        DatabaseType::Sqlite => {
            if str_equal(column_type, "INTEGER") {
                Some(ColumnKind::Int)
            } else if str_equal(column_type, "TEXT") {
                Some(ColumnKind::Text)
            } else if str_equal(column_type, "BOOLEAN") {
                Some(ColumnKind::Bool)
            } else if str_equal(column_type, "TIMESTAMP") {
                Some(ColumnKind::Timestamp)
            } else {
                None
            }
        },
    }
}

/// The name of the object that `row` reports as existing: its `exists` column holds `true`
/// or the text `t`, and its `tbl` column holds the name.
pub open spec fn existing_name(row: CustomDbRow) -> Option<Seq<char>> {
    match (row_get(row, "exists"@), row_get(row, "tbl"@)) {
        (Some(RowValues::Bool(true)), Some(RowValues::Text(t))) => Some(t@),
        (Some(RowValues::Text(e)), Some(RowValues::Text(t))) => if e@ == "t"@ {
            Some(t@)
        } else {
            None
        },
        _ => None,
    }
}

/// The names of the existing objects that `rows` report, in order.
pub open spec fn existing_names(rows: Seq<CustomDbRow>) -> Seq<Seq<char>>
    decreases rows.len(),
{
    if rows.len() == 0 {
        Seq::empty()
    } else {
        let before = existing_names(rows.drop_last());
        match existing_name(rows.last()) {
            Some(n) => before.push(n),
            None => before,
        }
    }
}

fn existing_name_of(row: &CustomDbRow) -> (r: Option<String>)
    ensures
        match r {
            Some(n) => existing_name(*row) == Some(n@),
            None => existing_name(*row) is None,
        },
{
    let e = row.get("exists");
    let t = row.get("tbl");
    match (e, t) {
        (Some(RowValues::Bool(true)), Some(RowValues::Text(name))) => Some(name.clone()),
        (Some(RowValues::Text(v)), Some(RowValues::Text(name))) => {
            if str_equal(v.as_str(), "t") {
                Some(name.clone())
            } else {
                None
            }
        },
        _ => None,
    }
}

/// The existence check reads `row` without going past its values: when both the `exists`
/// and the `tbl` column are named, the `exists` column has a value, and so has the `tbl`
/// column when the object is reported as existing.
pub open spec fn existence_row_readable(row: CustomDbRow) -> bool {
    match (column_position(row.column_names@, "exists"@), column_position(row.column_names@, "tbl"@)) {
        (Some(e), Some(t)) => e < row.rows@.len() && (match row.rows@[e] {
            RowValues::Bool(true) => t < row.rows@.len(),
            RowValues::Text(v) => v@ == "t"@ ==> t < row.rows@.len(),
            _ => true,
        }),
        _ => true,
    }
}

/// The names of the objects that the rows of the existence query report as existing.
pub fn existing_objects(rows: &[CustomDbRow]) -> (r: Vec<String>)
    requires
        forall|k: int| 0 <= k < rows@.len() ==> existence_row_readable(#[trigger] rows@[k]),
    ensures
        r@.map_values(|s: String| s@) == existing_names(rows@),
{
    let mut out: Vec<String> = Vec::new();
    let mut k: usize = 0;
    while k < rows.len()
        invariant
            k <= rows@.len(),
            out@.map_values(|s: String| s@) == existing_names(rows@.take(k as int)),
        decreases rows@.len() - k,
    {
        proof {
            assert(rows@.take(k + 1).drop_last() =~= rows@.take(k as int));
        }
        let ghost before = out@;
        match existing_name_of(&rows[k]) {
            Some(n) => {
                out.push(n);
                proof {
                    assert(out@.map_values(|s: String| s@) =~= before.map_values(|s: String| s@).push(
                        out@.last()@,
                    ));
                }
            },
            None => {},
        }
        k = k + 1;
    }
    proof {
        assert(rows@.take(k as int) =~= rows@);
    }
    out
}

/// `result` reports whether object `name` is among `existing`.
pub open spec fn object_state(result: DatabaseResult<String>, name: Seq<char>, existing: Seq<Seq<char>>) -> bool {
    &&& result.db_object_name@ == name
    &&& result.db_last_exec_state == if existing.contains(name) {
        DatabaseSetupState::QueryReturnedSuccessfully
    } else {
        DatabaseSetupState::MissingRelations
    }
    &&& result.error_message is None
    &&& result.return_result@ == Seq::<char>::empty()
}

/// For each expected object, in order, whether it is among the existing ones.
pub fn object_states(expected: &[&str], existing: &[String]) -> (r: Vec<DatabaseResult<String>>)
    ensures
        r@.len() == expected@.len(),
        forall|k: int|
            0 <= k < r@.len() ==> object_state(
                #[trigger] r@[k],
                expected@[k]@,
                existing@.map_values(|s: String| s@),
            ),
{
    let ghost names = existing@.map_values(|s: String| s@);
    let mut out: Vec<DatabaseResult<String>> = Vec::new();
    let mut k: usize = 0;
    while k < expected.len()
        invariant
            k <= expected@.len(),
            names == existing@.map_values(|s: String| s@),
            out@.len() == k,
            forall|j: int| 0 <= j < k ==> object_state(#[trigger] out@[j], expected@[j]@, names),
        decreases expected@.len() - k,
    {
        let name = expected[k];
        let mut found = false;
        let mut j: usize = 0;
        while j < existing.len()
            invariant
                j <= existing@.len(),
                names == existing@.map_values(|s: String| s@),
                found <==> exists|i: int| 0 <= i < j && names[i] == name@,
            decreases existing@.len() - j,
        {
            let eq = str_equal(existing[j].as_str(), name);
            proof {
                assert(names[j as int] == existing@[j as int]@);
            }
            if eq {
                found = true;
            }
            j = j + 1;
        }
        proof {
            if found {
                let i = choose|i: int| 0 <= i < j && names[i] == name@;
                assert(names.contains(name@));
            } else {
                assert(!names.contains(name@));
            }
        }
        let mut result: DatabaseResult<String> = DatabaseResult::<String>::default();
        result.db_object_name = owned(name);
        result.return_result = String::new();
        result.db_last_exec_state = if found {
            DatabaseSetupState::QueryReturnedSuccessfully
        } else {
            DatabaseSetupState::MissingRelations
        };
        out.push(result);
        k = k + 1;
    }
    out
}

/// The statements that create the missing objects: for tables, the second item of each
/// entry whose first item (the table) is missing; for constraints, the fourth item of each
/// entry whose third item (the constraint) is missing; in the order of `ddl`.
pub open spec fn statements_for(ddl: Seq<(&str, &str, &str, &str)>, missing: Seq<Seq<char>>, check_type: CheckType) -> Seq<Seq<char>>
    decreases ddl.len(),
{
    if ddl.len() == 0 {
        Seq::empty()
    } else {
        let before = statements_for(ddl.drop_last(), missing, check_type);
        let e = ddl.last();
        match check_type {
            CheckType::Table => if missing.contains(e.0@) {
                before.push(e.1@)
            } else {
                before
            },
            CheckType::Constraint => if missing.contains(e.2@) {
                before.push(e.3@)
            } else {
                before
            },
        }
    }
}

fn names_contain(missing: &[MissingDbObjects], name: &str) -> (r: bool)
    ensures
        r == missing@.map_values(|m: MissingDbObjects| m.missing_object@).contains(name@),
{
    let ghost names = missing@.map_values(|m: MissingDbObjects| m.missing_object@);
    let mut j: usize = 0;
    while j < missing.len()
        invariant
            j <= missing@.len(),
            names == missing@.map_values(|m: MissingDbObjects| m.missing_object@),
            forall|i: int| 0 <= i < j ==> names[i] != name@,
        decreases missing@.len() - j,
    {
        if str_equal(missing[j].missing_object.as_str(), name) {
            proof {
                assert(names[j as int] == name@);
            }
            return true;
        }
        j = j + 1;
    }
    false
}

/// The statements that create the missing tables or constraints.
pub fn statements_for_missing<'a>(missing: &[MissingDbObjects], check_type: CheckType, ddl: &[(&'a str, &'a str, &'a str, &'a str)]) -> (r: Vec<&'a str>)
    ensures
        r@.map_values(|s: &str| s@) == statements_for(
            ddl@,
            missing@.map_values(|m: MissingDbObjects| m.missing_object@),
            check_type,
        ),
{
    let ghost names = missing@.map_values(|m: MissingDbObjects| m.missing_object@);
    let mut out: Vec<&'a str> = Vec::new();
    let mut k: usize = 0;
    while k < ddl.len()
        invariant
            k <= ddl@.len(),
            names == missing@.map_values(|m: MissingDbObjects| m.missing_object@),
            out@.map_values(|s: &str| s@) == statements_for(ddl@.take(k as int), names, check_type),
        decreases ddl@.len() - k,
    {
        proof {
            assert(ddl@.take(k + 1).drop_last() =~= ddl@.take(k as int));
        }
        let e = ddl[k];
        let ghost before = out@;
        let wanted = match check_type {
            CheckType::Table => names_contain(missing, e.0),
            CheckType::Constraint => names_contain(missing, e.2),
        };
        if wanted {
            match check_type {
                CheckType::Table => out.push(e.1),
                CheckType::Constraint => out.push(e.3),
            }
            proof {
                assert(out@.map_values(|s: &str| s@) =~= before.map_values(|s: &str| s@).push(
                    out@.last()@,
                ));
            }
        }
        k = k + 1;
    }
    proof {
        assert(ddl@.take(k as int) =~= ddl@);
    }
    out
}


/// What the check of whether the database is set up reports, given the outcome of the
/// existence query: one result per expected object when the query succeeded, else a single
/// result with the query's state and error.
pub open spec fn setup_reported(r: Seq<DatabaseResult<String>>, run: DatabaseResult<Vec<ResultSet>>, expected: Seq<&str>) -> bool {
    if run.db_last_exec_state == DatabaseSetupState::QueryReturnedSuccessfully {
        let existing = existing_names(run.return_result@[0].results@);
        &&& r.len() == expected.len()
        &&& forall|k: int| 0 <= k < r.len() ==> object_state(#[trigger] r[k], expected[k]@, existing)
    } else {
        &&& r.len() == 1
        &&& r[0].db_last_exec_state == run.db_last_exec_state
        &&& r[0].db_object_name@ == Seq::<char>::empty()
        &&& match (r[0].error_message, run.error_message) {
            (Some(a), Some(b)) => a@ == b@,
            (None, None) => true,
            _ => false,
        }
    }
}

/// Reports, for each expected table or constraint, whether it exists, from the outcome of
/// the existence query.
pub fn setup_results(run: &DatabaseResult<Vec<ResultSet>>, expected: &[&str]) -> (r: Vec<DatabaseResult<String>>)
    requires
        run.db_last_exec_state == DatabaseSetupState::QueryReturnedSuccessfully ==> run.return_result@.len() > 0
            && forall|k: int|
            0 <= k < run.return_result@[0].results@.len() ==> existence_row_readable(
                #[trigger] run.return_result@[0].results@[k],
            ),
    ensures
        setup_reported(r@, *run, expected@),
{
    if run.db_last_exec_state == DatabaseSetupState::QueryReturnedSuccessfully {
        let existing = existing_objects(run.return_result[0].results.as_slice());
        object_states(expected, existing.as_slice())
    } else {
        let mut result: DatabaseResult<String> = DatabaseResult::<String>::default();
        result.db_last_exec_state = run.db_last_exec_state;
        result.error_message = match &run.error_message {
            Some(e) => Some(e.clone()),
            None => None,
        };
        let mut out: Vec<DatabaseResult<String>> = Vec::new();
        out.push(result);
        out
    }
}

/// The event name of the first row that has one, empty when none has.
pub open spec fn title_of(rows: Seq<CustomDbRow>) -> Seq<char>
    decreases rows.len(),
{
    if rows.len() == 0 {
        Seq::empty()
    } else {
        match row_get(rows[0], "eventname"@) {
            Some(RowValues::Text(t)) => t@,
            _ => title_of(rows.drop_first()),
        }
    }
}

/// Reading a row's event name does not go past its values.
pub open spec fn title_row_readable(row: CustomDbRow) -> bool {
    column_position(row.column_names@, "eventname"@) matches Some(i) ==> i < row.rows@.len()
}

/// The name of the event, read from the rows of the event query.
pub fn title_from_rows(rows: &[CustomDbRow]) -> (r: String)
    requires
        forall|k: int| 0 <= k < rows@.len() ==> title_row_readable(#[trigger] rows@[k]),
    ensures
        r@ == title_of(rows@),
{
    let mut k: usize = 0;
    proof {
        assert(rows@.skip(0) =~= rows@);
    }
    while k < rows.len()
        invariant
            k <= rows@.len(),
            title_of(rows@) == title_of(rows@.skip(k as int)),
        decreases rows@.len() - k,
    {
        proof {
            assert(rows@.skip(k as int)[0] == rows@[k as int]);
            assert(rows@.skip(k as int).drop_first() =~= rows@.skip(k + 1));
        }
        match rows[k].get("eventname") {
            Some(RowValues::Text(t)) => {
                return t.clone();
            },
            _ => {},
        }
        k = k + 1;
    }
    proof {
        reveal_strlit("");
    }
    owned("")
}


/// What the database answered to the last step of a run of queries.
#[derive(Debug)]
pub enum QueryEvent {
    /// The transaction was opened.
    Began,
    /// The transaction could not be opened.
    BeginFailed(String),
    /// The current query ran; its rows (none for a statement).
    Completed(ResultSet),
    /// The current query failed.
    Failed(String),
}

/// What to do next in a run of queries.
#[derive(Clone, Copy, Debug, PartialEq, Eq, Structural)]
pub enum QueryAction {
    /// Run the query at this position.
    Run(usize),
    /// Roll the transaction back; the run is over.
    Rollback,
    /// Commit the transaction; the run is over.
    Commit,
    /// Nothing more to do.
    Finish,
}

/// A run of queries in one transaction, as far as it has got.
#[derive(Debug)]
pub struct QueryRun {
    pub result: DatabaseResult<Vec<ResultSet>>,
    pub next: usize,
    pub total: usize,
    pub started: bool,
    pub finished: bool,
}

/// The state of a run of queries: its outcome so far, the rows of each query that ran, the
/// error, the position of the next query, the number of queries, whether the run has
/// started and is over, and the name of the object that it reports on.
pub struct QueryRunModel {
    pub state: DatabaseSetupState,
    pub results: Seq<ResultSet>,
    pub error: Option<Seq<char>>,
    pub next: nat,
    pub total: nat,
    pub started: bool,
    pub finished: bool,
    /// The name of the database object that the run reports on; a run leaves it as it was
    /// made, empty.
    pub object_name: Seq<char>,
}

pub open spec fn error_view(e: Option<String>) -> Option<Seq<char>> {
    match e {
        Some(s) => Some(s@),
        None => None,
    }
}

impl QueryRun {
    /// A run that has not started is at its first query; one under way has a query left.
    pub open spec fn wf(&self) -> bool {
        &&& !self.started ==> self.next == 0
        &&& self.started && !self.finished ==> self.next < self.total
    }

    pub open spec fn model(&self) -> QueryRunModel {
        QueryRunModel {
            state: self.result.db_last_exec_state,
            results: self.result.return_result@,
            error: error_view(self.result.error_message),
            next: self.next as nat,
            total: self.total as nat,
            started: self.started,
            finished: self.finished,
            object_name: self.result.db_object_name@,
        }
    }
}

/// A run of `total` queries that has not started.
pub open spec fn run_start(total: nat) -> QueryRunModel {
    QueryRunModel {
        state: DatabaseSetupState::NoConnection,
        results: Seq::empty(),
        error: None,
        next: 0,
        total,
        started: false,
        finished: false,
        object_name: Seq::empty(),
    }
}

/// The state of a run after the event `ev`.
pub open spec fn run_step(m: QueryRunModel, ev: QueryEvent) -> QueryRunModel {
    if m.finished {
        m
    } else {
        match ev {
            QueryEvent::Began => if m.started {
                m
            } else if m.total == 0 {
                QueryRunModel {
                    state: DatabaseSetupState::QueryReturnedSuccessfully,
                    started: true,
                    finished: true,
                    ..m
                }
            } else {
                QueryRunModel { started: true, ..m }
            },
            QueryEvent::BeginFailed(e) => if m.started {
                m
            } else {
                QueryRunModel {
                    state: DatabaseSetupState::QueryError,
                    error: Some(e@),
                    finished: true,
                    ..m
                }
            },
            QueryEvent::Completed(rs) => if !m.started {
                m
            } else if m.next + 1 >= m.total {
                QueryRunModel {
                    state: DatabaseSetupState::QueryReturnedSuccessfully,
                    results: m.results.push(rs),
                    next: m.next + 1,
                    finished: true,
                    ..m
                }
            } else {
                QueryRunModel { results: m.results.push(rs), next: m.next + 1, ..m }
            },
            QueryEvent::Failed(e) => if !m.started {
                m
            } else {
                QueryRunModel {
                    state: DatabaseSetupState::QueryError,
                    error: Some(e@),
                    finished: true,
                    ..m
                }
            },
        }
    }
}

/// What to do after the event `ev`.
pub open spec fn run_action(m: QueryRunModel, ev: QueryEvent) -> QueryAction {
    if m.finished {
        QueryAction::Finish
    } else {
        match ev {
            QueryEvent::Began => if m.started {
                QueryAction::Finish
            } else if m.total == 0 {
                QueryAction::Commit
            } else {
                QueryAction::Run(0)
            },
            QueryEvent::BeginFailed(_) => QueryAction::Finish,
            QueryEvent::Completed(_) => if !m.started {
                QueryAction::Finish
            } else if m.next + 1 >= m.total {
                QueryAction::Commit
            } else {
                QueryAction::Run((m.next + 1) as usize)
            },
            QueryEvent::Failed(_) => if !m.started {
                QueryAction::Finish
            } else {
                QueryAction::Rollback
            },
        }
    }
}

impl QueryRun {
    /// A run of `total` queries that has not started.
    pub fn new(total: usize) -> (r: QueryRun)
        ensures
            r.model() == run_start(total as nat),
            r.wf(),
    {
        let result = DatabaseResult::<Vec<ResultSet>> {
            db_last_exec_state: DatabaseSetupState::NoConnection,
            return_result: Vec::new(),
            error_message: None,
            db_object_name: String::new(),
        };
        QueryRun { result, next: 0, total, started: false, finished: false }
    }

    /// Takes in what the database answered and says what to do next: run the queries in
    /// order inside one transaction, stop at the first failure and roll back, commit once
    /// every query has run.
    pub fn on_event(&mut self, ev: QueryEvent) -> (r: QueryAction)
        requires
            old(self).wf(),
        ensures
            final(self).model() == run_step(old(self).model(), ev),
            r == run_action(old(self).model(), ev),
            final(self).wf(),
    {
        if self.finished {
            return QueryAction::Finish;
        }
        match ev {
            QueryEvent::Began => {
                if self.started {
                    QueryAction::Finish
                } else if self.total == 0 {
                    self.started = true;
                    self.finished = true;
                    self.result.db_last_exec_state = DatabaseSetupState::QueryReturnedSuccessfully;
                    QueryAction::Commit
                } else {
                    self.started = true;
                    QueryAction::Run(0)
                }
            },
            QueryEvent::BeginFailed(e) => {
                if self.started {
                    QueryAction::Finish
                } else {
                    self.result.db_last_exec_state = DatabaseSetupState::QueryError;
                    self.result.error_message = Some(e);
                    self.finished = true;
                    QueryAction::Finish
                }
            },
            QueryEvent::Completed(rs) => {
                if !self.started {
                    QueryAction::Finish
                } else {
                    self.result.return_result.push(rs);
                    self.next = self.next + 1;
                    if self.next >= self.total {
                        self.result.db_last_exec_state = DatabaseSetupState::QueryReturnedSuccessfully;
                        self.finished = true;
                        QueryAction::Commit
                    } else {
                        QueryAction::Run(self.next)
                    }
                }
            },
            QueryEvent::Failed(e) => {
                if !self.started {
                    QueryAction::Finish
                } else {
                    self.result.db_last_exec_state = DatabaseSetupState::QueryError;
                    self.result.error_message = Some(e);
                    self.finished = true;
                    QueryAction::Rollback
                }
            },
        }
    }
}

/// The state of a run after each of `events` in turn.
pub open spec fn run_after(m: QueryRunModel, events: Seq<QueryEvent>) -> QueryRunModel
    decreases events.len(),
{
    if events.len() == 0 {
        m
    } else {
        run_after(run_step(m, events[0]), events.drop_first())
    }
}

/// The answers of a run in which every one of `rows.len()` queries succeeds.
pub open spec fn all_completed(rows: Seq<ResultSet>) -> Seq<QueryEvent> {
    seq![QueryEvent::Began] + rows.map_values(|rs: ResultSet| QueryEvent::Completed(rs))
}

#[verifier::spinoff_prover]
proof fn lemma_completions(m: QueryRunModel, rows: Seq<ResultSet>)
    requires
        m.started,
        !m.finished,
        m.next + rows.len() == m.total,
        rows.len() > 0,
        m.state == DatabaseSetupState::NoConnection,
    ensures
        run_after(m, rows.map_values(|rs: ResultSet| QueryEvent::Completed(rs))) == (QueryRunModel {
            state: DatabaseSetupState::QueryReturnedSuccessfully,
            results: m.results + rows,
            next: m.total,
            finished: true,
            ..m
        }),
    decreases rows.len(),
{
    let evs = rows.map_values(|rs: ResultSet| QueryEvent::Completed(rs));
    assert(evs[0] == QueryEvent::Completed(rows[0]));
    let m1 = run_step(m, evs[0]);
    assert(evs.drop_first() =~= rows.drop_first().map_values(|rs: ResultSet| QueryEvent::Completed(rs)));
    if rows.len() == 1 {
        reveal_with_fuel(run_after, 2);
        assert(evs.drop_first().len() == 0);
        assert(m.results + rows =~= m.results.push(rows[0]));
    } else {
        lemma_completions(m1, rows.drop_first());
        assert(m1.results + rows.drop_first() =~= m.results + rows);
    }
}

/// A run in which every query succeeds ends committed, with the rows of each query in the
/// order of the queries.
pub proof fn lemma_run_all_succeed(rows: Seq<ResultSet>)
    ensures
        run_after(run_start(rows.len()), all_completed(rows)).state
            == DatabaseSetupState::QueryReturnedSuccessfully,
        run_after(run_start(rows.len()), all_completed(rows)).results == rows,
        run_after(run_start(rows.len()), all_completed(rows)).error is None,
{
    let evs = all_completed(rows);
    let m0 = run_start(rows.len());
    let m1 = run_step(m0, QueryEvent::Began);
    assert(evs[0] == QueryEvent::Began);
    assert(evs.drop_first() =~= rows.map_values(|rs: ResultSet| QueryEvent::Completed(rs)));
    if rows.len() == 0 {
        reveal_with_fuel(run_after, 2);
        assert(evs.drop_first().len() == 0);
    } else {
        lemma_completions(m1, rows);
        assert(Seq::<ResultSet>::empty() + rows =~= rows);
    }
}

/// Once a run is over, nothing that the database answers changes it.
pub proof fn lemma_run_finished_stays(m: QueryRunModel, events: Seq<QueryEvent>)
    requires
        m.finished,
    ensures
        run_after(m, events) == m,
    decreases events.len(),
{
    if events.len() > 0 {
        lemma_run_finished_stays(run_step(m, events[0]), events.drop_first());
    }
}


/// The integer of column `name`, 0 when the row has none there.
pub open spec fn int_column(row: CustomDbRow, name: Seq<char>) -> i64 {
    match row_get(row, name) {
        Some(RowValues::Int(v)) => v,
        _ => 0,
    }
}

/// The text of column `name`, empty when the row has none there.
pub open spec fn text_column(row: CustomDbRow, name: Seq<char>) -> Seq<char> {
    match row_get(row, name) {
        Some(RowValues::Text(t)) => t@,
        _ => Seq::empty(),
    }
}

fn get_int(row: &CustomDbRow, name: &str) -> (r: i64)
    ensures
        r == int_column(*row, name@),
{
    match row.get(name) {
        Some(RowValues::Int(v)) => *v,
        _ => 0,
    }
}

fn get_string(row: &CustomDbRow, name: &str) -> (r: String)
    ensures
        r@ == text_column(*row, name@),
{
    proof {
        reveal_strlit("");
    }
    match row.get(name) {
        Some(RowValues::Text(t)) => t.clone(),
        _ => owned(""),
    }
}

/// A golfer pick read from a row of the picks of an event: group, golfer, bettor, pick and
/// golfer identifiers, each 0 or empty when missing, with no statistics yet.
pub fn golfer_from_row(row: &CustomDbRow) -> (r: crate::score::Scores)
    ensures
        r.group == int_column(*row, "grp"@),
        r.golfer_name@ == text_column(*row, "golfername"@),
        r.bettor_name@ == text_column(*row, "bettorname"@),
        r.eup_id == int_column(*row, "eup_id"@),
        r.espn_id == int_column(*row, "espn_id"@),
        r.detailed_statistics.eup_id == int_column(*row, "eup_id"@),
        r.detailed_statistics.rounds@.len() == 0,
        r.detailed_statistics.round_scores@.len() == 0,
        r.detailed_statistics.tee_times@.len() == 0,
        r.detailed_statistics.holes_completed_by_round@.len() == 0,
        r.detailed_statistics.line_scores@.len() == 0,
        r.detailed_statistics.total_score == 0,
{
    crate::score::Scores {
        group: get_int(row, "grp"),
        golfer_name: get_string(row, "golfername"),
        bettor_name: get_string(row, "bettorname"),
        eup_id: get_int(row, "eup_id"),
        espn_id: get_int(row, "espn_id"),
        detailed_statistics: crate::score::Statistic {
            eup_id: get_int(row, "eup_id"),
            rounds: Vec::new(),
            round_scores: Vec::new(),
            tee_times: Vec::new(),
            holes_completed_by_round: Vec::new(),
            line_scores: Vec::new(),
            total_score: 0,
        },
    }
}

/// The timestamp of the last row that has one in its `ins_ts` column.
pub open spec fn last_timestamp(rows: Seq<CustomDbRow>) -> Option<(i64, u32)>
    decreases rows.len(),
{
    if rows.len() == 0 {
        None
    } else {
        match row_get(rows.last(), "ins_ts"@) {
            Some(RowValues::Timestamp(s, n)) => Some((s, n)),
            _ => last_timestamp(rows.drop_last()),
        }
    }
}

/// When the stored scores were last refreshed: the last timestamp among the rows.
pub fn last_refresh_of(rows: &[CustomDbRow]) -> (r: Option<(i64, u32)>)
    ensures
        r == last_timestamp(rows@),
{
    let mut k: usize = rows.len();
    proof {
        assert(rows@.take(k as int) =~= rows@);
    }
    while k > 0
        invariant
            k <= rows@.len(),
            last_timestamp(rows@) == last_timestamp(rows@.take(k as int)),
        decreases k,
    {
        proof {
            assert(rows@.take(k as int).drop_last() =~= rows@.take(k - 1));
            assert(rows@.take(k as int).last() == rows@[k - 1]);
        }
        match rows[k - 1].get("ins_ts") {
            Some(RowValues::Timestamp(s, n)) => {
                return Some((*s, *n));
            },
            _ => {},
        }
        k = k - 1;
    }
    None
}

/// `a / b` rounded toward zero, as Rust's `/` divides.
pub open spec fn quotient_toward_zero(a: int, b: int) -> int {
    if a >= 0 {
        a / b
    } else {
        -((-a) / b)
    }
}

/// The whole days from `then` to `now` (each seconds and nanoseconds, as chrono counts them
/// in UTC), as `TimeDelta::num_days` gives them: whole seconds rounded toward zero, then
/// whole days rounded toward zero.
pub open spec fn days_between(then: (i64, u32), now: (i64, u32)) -> int {
    quotient_toward_zero(quotient_toward_zero(elapsed_nanos(then, now), 1_000_000_000), 86400)
}

/// Whether the stored scores are read from the database rather than fetched again: the
/// event is set up and its scores were stored at least `max_age_days` whole days ago.
pub open spec fn stored_scores_usable(event_set_up: bool, first_stored: Option<(i64, u32)>, now: (i64, u32), max_age_days: i64) -> bool {
    event_set_up && match first_stored {
        Some(t) => days_between(t, now) >= max_age_days,
        None => false,
    }
}

/// Decides whether the stored scores of an event are used.
pub fn use_stored_scores(event_set_up: bool, first_stored: Option<(i64, u32)>, now: (i64, u32), max_age_days: i64) -> (r: bool)
    ensures
        r == stored_scores_usable(event_set_up, first_stored, now, max_age_days),
{
    if !event_set_up {
        return false;
    }
    match first_stored {
        None => false,
        Some(t) => {
            let nanos: i128 = elapsed_between(t, now);
            let secs: i128 = if nanos >= 0 {
                nanos / 1_000_000_000
            } else {
                -((-nanos) / 1_000_000_000)
            };
            let days: i128 = if secs >= 0 {
                secs / 86400
            } else {
                -((-secs) / 86400)
            };
            days >= max_age_days as i128
        },
    }
}

/// Whether the page shows the stored scores rather than fetching them again: only when the
/// request allows the stored scores and the check of them said they may be used; a check
/// that was not made or failed (`None`) counts as no.
pub fn stored_scores_chosen(use_cache: bool, stored_check: Option<bool>) -> (r: bool)
    ensures
        r == (use_cache && stored_check == Some(true)),
{
    use_cache && match stored_check {
        Some(b) => b,
        None => false,
    }
}


proof fn lemma_partial_completions(m: QueryRunModel, rows: Seq<ResultSet>)
    requires
        m.started,
        !m.finished,
        m.next + rows.len() < m.total,
    ensures
        run_after(m, rows.map_values(|rs: ResultSet| QueryEvent::Completed(rs))) == (QueryRunModel {
            results: m.results + rows,
            next: m.next + rows.len(),
            ..m
        }),
    decreases rows.len(),
{
    let evs = rows.map_values(|rs: ResultSet| QueryEvent::Completed(rs));
    if rows.len() == 0 {
        assert(m.results + rows =~= m.results);
    } else {
        assert(evs[0] == QueryEvent::Completed(rows[0]));
        let m1 = run_step(m, evs[0]);
        assert(evs.drop_first() =~= rows.drop_first().map_values(|rs: ResultSet| QueryEvent::Completed(rs)));
        lemma_partial_completions(m1, rows.drop_first());
        assert(m1.results + rows.drop_first() =~= m.results + rows);
    }
}

proof fn lemma_run_after_append(m: QueryRunModel, a: Seq<QueryEvent>, b: Seq<QueryEvent>)
    ensures
        run_after(m, a + b) == run_after(run_after(m, a), b),
    decreases a.len(),
{
    if a.len() == 0 {
        assert(a + b =~= b);
    } else {
        assert((a + b)[0] == a[0]);
        assert((a + b).drop_first() =~= a.drop_first() + b);
        lemma_run_after_append(run_step(m, a[0]), a.drop_first(), b);
    }
}

/// A run whose query at position `rows.len()` fails ends rolled back with the failure's
/// message and the rows of the queries before it, whatever the database answers after.
pub proof fn lemma_run_stops_at_failure(total: nat, rows: Seq<ResultSet>, e: String, later: Seq<QueryEvent>)
    requires
        rows.len() < total,
    ensures
        ({
            let events = all_completed(rows).push(QueryEvent::Failed(e)) + later;
            let end = run_after(run_start(total), events);
            &&& end.state == DatabaseSetupState::QueryError
            &&& end.error == Some(e@)
            &&& end.results == rows
            &&& end.finished
        }),
{
    let m0 = run_start(total);
    let m1 = run_step(m0, QueryEvent::Began);
    let comps = rows.map_values(|rs: ResultSet| QueryEvent::Completed(rs));
    lemma_partial_completions(m1, rows);
    let m2 = run_after(m1, comps);
    assert(Seq::<ResultSet>::empty() + rows =~= rows);
    let m3 = run_step(m2, QueryEvent::Failed(e));
    assert(all_completed(rows).push(QueryEvent::Failed(e)) + later =~= seq![QueryEvent::Began] + (comps + (seq![QueryEvent::Failed(e)] + later)));
    lemma_run_after_append(m0, seq![QueryEvent::Began], comps + (seq![QueryEvent::Failed(e)] + later));
    assert(run_after(m0, seq![QueryEvent::Began]) == m1) by {
        reveal_with_fuel(run_after, 2);
        assert(seq![QueryEvent::Began].drop_first() =~= Seq::<QueryEvent>::empty());
    }
    lemma_run_after_append(m1, comps, seq![QueryEvent::Failed(e)] + later);
    lemma_run_after_append(m2, seq![QueryEvent::Failed(e)], later);
    assert(run_after(m2, seq![QueryEvent::Failed(e)]) == m3) by {
        reveal_with_fuel(run_after, 2);
        assert(seq![QueryEvent::Failed(e)].drop_first() =~= Seq::<QueryEvent>::empty());
    }
    lemma_run_finished_stays(m3, later);
}


/// What the check of one table reports, from the state of the query that reads it: the
/// table exists when the query succeeded, is missing when it failed, and the database
/// could not be reached when there was no connection.
pub open spec fn table_check_text(state: DatabaseSetupState) -> Seq<char> {
    match state {
        DatabaseSetupState::QueryReturnedSuccessfully => "Table exists"@,
        DatabaseSetupState::NoConnection => "Can't connect to db"@,
        _ => "Table does not exist"@,
    }
}

pub open spec fn table_check_state(state: DatabaseSetupState) -> DatabaseSetupState {
    match state {
        DatabaseSetupState::QueryError => DatabaseSetupState::MissingRelations,
        s => s,
    }
}

/// The report of the check of table `table_name`, from the state and error of the query
/// that reads it.
pub fn table_check_result(table_name: &str, state: DatabaseSetupState, error_message: Option<String>) -> (r: DatabaseResult<String>)
    ensures
        r.db_object_name@ == table_name@,
        r.db_last_exec_state == table_check_state(state),
        r.return_result@ == table_check_text(state),
        r.error_message == error_message,
{
    let text = match state {
        DatabaseSetupState::QueryReturnedSuccessfully => "Table exists",
        DatabaseSetupState::NoConnection => "Can't connect to db",
        _ => "Table does not exist",
    };
    let new_state = match state {
        DatabaseSetupState::QueryError => DatabaseSetupState::MissingRelations,
        s => s,
    };
    DatabaseResult {
        db_last_exec_state: new_state,
        return_result: owned(text),
        error_message,
        db_object_name: owned(table_name),
    }
}

/// What the check of one constraint reports, from the state of the query that looks it
/// up and the first value of the first row that came back, if any: the constraint exists
/// when that value is `1`, else it does not; the text stays empty when no row came back.
/// A failed query or a missing connection is reported as for a table.
pub open spec fn constraint_check_text(state: DatabaseSetupState, first: Option<Seq<char>>) -> Seq<char> {
    match state {
        DatabaseSetupState::QueryReturnedSuccessfully => match first {
            Some(x) => if x == "1"@ {
                "Constraint exists"@
            } else {
                "Constraint does not exist"@
            },
            None => Seq::empty(),
        },
        DatabaseSetupState::NoConnection => "Can't connect to db"@,
        _ => "Table does not exist"@,
    }
}

pub open spec fn constraint_check_state(state: DatabaseSetupState, first: Option<Seq<char>>) -> DatabaseSetupState {
    match state {
        DatabaseSetupState::QueryReturnedSuccessfully => match first {
            Some(x) => if x == "1"@ {
                DatabaseSetupState::QueryReturnedSuccessfully
            } else {
                DatabaseSetupState::MissingRelations
            },
            None => DatabaseSetupState::QueryReturnedSuccessfully,
        },
        DatabaseSetupState::QueryError => DatabaseSetupState::MissingRelations,
        s => s,
    }
}

/// The report of the check of the constraint of table `table_name`, from the state and
/// error of the query that looks it up and the first value (as text) of the first row that
/// came back, if any.
pub fn constraint_check_result(
    table_name: &str,
    state: DatabaseSetupState,
    error_message: Option<String>,
    first_value: Option<&str>,
) -> (r: DatabaseResult<String>)
    ensures
        r.db_object_name@ == table_name@,
        r.db_last_exec_state == constraint_check_state(state, match first_value {
            Some(x) => Some(x@),
            None => None,
        }),
        r.return_result@ == constraint_check_text(state, match first_value {
            Some(x) => Some(x@),
            None => None,
        }),
        r.error_message == error_message,
{
    proof {
        reveal_strlit("1");
        reveal_strlit("");
    }
    let (text, new_state) = match state {
        DatabaseSetupState::QueryReturnedSuccessfully => match first_value {
            Some(x) => if str_equal(x, "1") {
                ("Constraint exists", DatabaseSetupState::QueryReturnedSuccessfully)
            } else {
                ("Constraint does not exist", DatabaseSetupState::MissingRelations)
            },
            None => ("", DatabaseSetupState::QueryReturnedSuccessfully),
        },
        DatabaseSetupState::QueryError => ("Table does not exist", DatabaseSetupState::MissingRelations),
        DatabaseSetupState::NoConnection => ("Can't connect to db", DatabaseSetupState::NoConnection),
        s => ("Table does not exist", s),
    };
    DatabaseResult {
        db_last_exec_state: new_state,
        return_result: owned(text),
        error_message,
        db_object_name: owned(table_name),
    }
}

/// What a database connection is made from.
#[derive(Debug)]
pub struct DbConfig {
    pub dbname: Option<String>,
    pub host: Option<String>,
    pub port: Option<u16>,
    pub user: Option<String>,
    pub password: Option<String>,
}

/// The configuration names what the database type needs: always a database name, and for
/// Postgres a host, a port, a user and a password.
pub open spec fn config_complete(config: DbConfig, db_type: DatabaseType) -> bool {
    &&& config.dbname is Some
    &&& db_type == DatabaseType::Postgres ==> config.host is Some && config.port is Some
        && config.user is Some && config.password is Some
}

/// What is missing from a configuration for the database type, in the order in which it is
/// asked for: the database name, then, for Postgres, the host, the port, the user and the
/// password; `None` when nothing is missing.
pub open spec fn config_problem(config: DbConfig, db_type: DatabaseType) -> Option<Seq<char>> {
    if config.dbname is None {
        Some("dbname is required"@)
    } else if db_type == DatabaseType::Sqlite {
        None
    } else if config.host is None {
        Some("host is required"@)
    } else if config.port is None {
        Some("port is required"@)
    } else if config.user is None {
        Some("user is required"@)
    } else if config.password is None {
        Some("password is required"@)
    } else {
        None
    }
}

/// Checks that a configuration names what the database type needs, with the message for
/// the first thing missing.
pub fn check_db_config(config: &DbConfig, db_type: DatabaseType) -> (r: Result<(), String>)
    ensures
        match r {
            Ok(()) => config_problem(*config, db_type) is None && config_complete(*config, db_type),
            Err(m) => config_problem(*config, db_type) == Some(m@),
        },
{
    if config.dbname.is_none() {
        return Err(owned("dbname is required"));
    }
    match db_type {
        DatabaseType::Sqlite => Ok(()),
        DatabaseType::Postgres => {
            if config.host.is_none() {
                Err(owned("host is required"))
            } else if config.port.is_none() {
                Err(owned("port is required"))
            } else if config.user.is_none() {
                Err(owned("user is required"))
            } else if config.password.is_none() {
                Err(owned("password is required"))
            } else {
                Ok(())
            }
        },
    }
}

/// The connection string for a configuration.
pub open spec fn connection_text(config: DbConfig, db_type: DatabaseType) -> Seq<char> {
    match db_type {
        DatabaseType::Postgres => "postgres://"@ + config.user->0@ + ":"@ + config.password->0@ + "@"@
            + config.host->0@ + ":"@ + crate::text::decimal_text(config.port->0 as int) + "/"@
            + config.dbname->0@,
        DatabaseType::Sqlite => "sqlite://"@ + config.dbname->0@,
    }
}

/// The connection string of the database.
pub fn connection_string(config: &DbConfig, db_type: DatabaseType) -> (r: String)
    requires
        config_complete(*config, db_type),
    ensures
        r@ == connection_text(*config, db_type),
{
    let dbname = match &config.dbname {
        Some(n) => n.as_str(),
        None => "",
    };
    match db_type {
        DatabaseType::Postgres => {
            let user = match &config.user {
                Some(u) => u.as_str(),
                None => "",
            };
            let password = match &config.password {
                Some(p) => p.as_str(),
                None => "",
            };
            let host = match &config.host {
                Some(h) => h.as_str(),
                None => "",
            };
            let port: u16 = match config.port {
                Some(p) => p,
                None => 0,
            };
            owned("postgres://").concat(user).concat(":").concat(password).concat("@").concat(
                host,
            ).concat(":").concat(crate::text::i64_text(port as i64).as_str()).concat("/").concat(
                dbname,
            )
        },
        DatabaseType::Sqlite => owned("sqlite://").concat(dbname),
    }
}

} // verus!
