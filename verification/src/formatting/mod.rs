//! How results are shown: text tables and lines, or the values that JSON
//! output is made of.
pub mod style;
pub mod table;

use vstd::prelude::*;
use crate::auth::status::{AuthCheck, AuthState};
use crate::formatting::style::{error_icon, null_value, painted, success_icon, TermColor};
use crate::formatting::table::{rows_texts, table_lines, table_text};
use crate::qpapi::catalog::TableStructure;
use crate::qpapi::session::{engine_name, Connection};
use crate::qpapi::sql::{Cell, ColumnInfo, ResultSet};
use crate::sessioncache::Entry;
use crate::text::{append, chars_of, decimal, decimal_vec, string_of, texts_of};

verus! {

/// The output format that the user picked.
#[derive(Debug, Clone, Copy, PartialEq, Eq, Structural)]
pub enum OutputFormat {
    Text,
    Json,
}

/// How a command shows its result.
#[derive(Debug, Clone, Copy)]
pub struct Options {
    pub output: OutputFormat,
    pub truncate: bool,
}

/// What a command shows: a value that is written out as JSON, or lines of
/// text.
#[derive(Debug)]
pub enum Shown<T> {
    Json(T),
    Lines(Vec<String>),
}

/// The lines are those of a table with these headers and rows: narrowed to
/// some terminal width when `truncate` is set, at full width otherwise.
pub open spec fn shows_table(
    lines: Seq<String>,
    headers: Seq<Seq<char>>,
    rows: Seq<Seq<Seq<char>>>,
    truncate: bool,
) -> bool {
    if truncate {
        exists|t: Option<usize>| texts_of(lines) == #[trigger] table_lines(headers, rows, t)
    } else {
        texts_of(lines) == table_lines(headers, rows, None)
    }
}

fn copy_strings(v: &Vec<String>) -> (res: Vec<String>)
    ensures
        texts_of(res@) == texts_of(v@),
{
    let mut out: Vec<String> = Vec::new();
    let mut i: usize = 0;
    while i < v.len()
        invariant
            i <= v.len(),
            out@.len() == i,
            forall|k: int| 0 <= k < i ==> #[trigger] out@[k]@ == v@[k]@,
        decreases v.len() - i,
    {
        out.push(v[i].clone());
        i = i + 1;
    }
    assert(texts_of(out@) =~= texts_of(v@));
    out
}

fn lines_of_table(headers: Vec<String>, rows: Vec<Vec<String>>, truncate: bool) -> (res: Vec<String>)
    ensures
        shows_table(res@, texts_of(headers@), rows_texts(rows@), truncate),
{
    let lines = table_text(&headers, &rows, truncate);
    proof {
        if truncate {
            let t = choose|t: Option<usize>|
                texts_of(lines@) == #[trigger] table_lines(texts_of(headers@), rows_texts(rows@), t);
            assert(texts_of(lines@) == table_lines(texts_of(headers@), rows_texts(rows@), t));
        }
    }
    lines
}

/// A list of names: the list itself as JSON, or one name per line.
pub fn names(list: &Vec<String>, opts: Options) -> (res: Shown<Vec<String>>)
    ensures
        opts.output == OutputFormat::Json ==> (res matches Shown::Json(v) && texts_of(v@)
            == texts_of(list@)),
        opts.output == OutputFormat::Text ==> (res matches Shown::Lines(v) && texts_of(v@)
            == texts_of(list@)),
{
    let copy = copy_strings(list);
    if opts.output == OutputFormat::Json {
        Shown::Json(copy)
    } else {
        Shown::Lines(copy)
    }
}

/// Whether a connection can be used: "expired" once it was deactivated.
pub open spec fn access_text(deactivated: bool) -> Seq<char> {
    if deactivated {
        "expired"@
    } else {
        "active"@
    }
}

fn connection_access(conn: &Connection) -> (res: &'static str)
    ensures
        res@ == access_text(conn.deactivated),
{
    if conn.deactivated {
        "expired"
    } else {
        "active"
    }
}

/// A connection as JSON output shows it.
#[derive(Debug, Clone)]
pub struct ConnectionRow {
    pub name: String,
    pub engine: String,
    pub access: String,
    pub deactivated: bool,
    pub cluster_uuid: String,
    pub db_type: i32,
}

/// The JSON row of a connection.
pub open spec fn connection_row_of(row: ConnectionRow, c: Connection) -> bool {
    &&& row.name@ == c.name@
    &&& row.engine@ == engine_name(c.db_type)
    &&& row.access@ == access_text(c.deactivated)
    &&& row.deactivated == c.deactivated
    &&& row.cluster_uuid@ == c.cluster_uuid@
    &&& row.db_type == c.db_type
}

/// The headers of the connection table.
pub open spec fn connection_headers() -> Seq<Seq<char>> {
    seq!["NAME"@, "ENGINE"@, "ACCESS"@]
}

/// The cells of a connection in the connection table.
pub open spec fn connection_cells(c: Connection) -> Seq<Seq<char>> {
    seq![c.name@, engine_name(c.db_type), access_text(c.deactivated)]
}

/// The connections: their rows as JSON, or a table of name, engine and
/// access.
pub fn connections(conns: &Vec<Connection>, opts: Options) -> (res: Shown<Vec<ConnectionRow>>)
    ensures
        opts.output == OutputFormat::Json ==> (res matches Shown::Json(rows) && rows@.len()
            == conns@.len() && forall|i: int|
            0 <= i < rows@.len() ==> connection_row_of(#[trigger] rows@[i], conns@[i])),
        opts.output == OutputFormat::Text ==> (res matches Shown::Lines(lines) && shows_table(
            lines@,
            connection_headers(),
            conns@.map_values(|c: Connection| connection_cells(c)),
            opts.truncate,
        )),
{
    if opts.output == OutputFormat::Json {
        let mut rows: Vec<ConnectionRow> = Vec::new();
        let mut i: usize = 0;
        while i < conns.len()
            invariant
                i <= conns.len(),
                rows@.len() == i,
                forall|k: int| 0 <= k < i ==> connection_row_of(#[trigger] rows@[k], conns@[k]),
            decreases conns.len() - i,
        {
            let c = &conns[i];
            rows.push(
                ConnectionRow {
                    name: c.name.clone(),
                    engine: c.engine().to_owned(),
                    access: connection_access(c).to_owned(),
                    deactivated: c.deactivated,
                    cluster_uuid: c.cluster_uuid.clone(),
                    db_type: c.db_type,
                },
            );
            i = i + 1;
        }
        return Shown::Json(rows);
    }
    let headers: Vec<String> = vec!["NAME".to_owned(), "ENGINE".to_owned(), "ACCESS".to_owned()];
    let mut rows: Vec<Vec<String>> = Vec::new();
    let mut i: usize = 0;
    while i < conns.len()
        invariant
            i <= conns.len(),
            rows@.len() == i,
            forall|k: int| 0 <= k < i ==> #[trigger] texts_of(rows@[k]@) == connection_cells(conns@[k]),
        decreases conns.len() - i,
    {
        let c = &conns[i];
        let row: Vec<String> = vec![
            c.name.clone(),
            c.engine().to_owned(),
            connection_access(c).to_owned(),
        ];
        assert(texts_of(row@) =~= connection_cells(conns@[i as int]));
        rows.push(row);
        i = i + 1;
    }
    assert(texts_of(headers@) =~= connection_headers());
    assert(rows_texts(rows@) =~= conns@.map_values(|c: Connection| connection_cells(c)));
    Shown::Lines(lines_of_table(headers, rows, opts.truncate))
}

/// A cached session as JSON output shows it.
#[derive(Debug, Clone)]
pub struct SessionRow {
    pub host: String,
    pub connection: String,
    pub engine: String,
    pub db: String,
    pub session: String,
    pub opened_at: i64,
}

/// The JSON row of a cached session.
pub open spec fn session_row_of(row: SessionRow, e: Entry) -> bool {
    &&& row.host@ == e.host@
    &&& row.connection@ == e.connection@
    &&& row.engine@ == e.engine@
    &&& row.db@ == e.resolved_db@
    &&& row.session@ == e.session@
    &&& row.opened_at == e.opened_at
}

/// The headers of the session table.
pub open spec fn session_headers() -> Seq<Seq<char>> {
    seq!["HOST"@, "CONNECTION"@, "ENGINE"@, "DB"@, "SESSION"@]
}

/// The cells of a cached session in the session table.
pub open spec fn session_cells(e: Entry) -> Seq<Seq<char>> {
    seq![e.host@, e.connection@, e.engine@, e.resolved_db@, e.session@]
}

/// The cached sessions: their rows as JSON, or a table of host,
/// connection, engine, database and session.
pub fn sessions(entries: &Vec<Entry>, opts: Options) -> (res: Shown<Vec<SessionRow>>)
    ensures
        opts.output == OutputFormat::Json ==> (res matches Shown::Json(rows) && rows@.len()
            == entries@.len() && forall|i: int|
            0 <= i < rows@.len() ==> session_row_of(#[trigger] rows@[i], entries@[i])),
        opts.output == OutputFormat::Text ==> (res matches Shown::Lines(lines) && shows_table(
            lines@,
            session_headers(),
            entries@.map_values(|e: Entry| session_cells(e)),
            opts.truncate,
        )),
{
    if opts.output == OutputFormat::Json {
        let mut rows: Vec<SessionRow> = Vec::new();
        let mut i: usize = 0;
        while i < entries.len()
            invariant
                i <= entries.len(),
                rows@.len() == i,
                forall|k: int| 0 <= k < i ==> session_row_of(#[trigger] rows@[k], entries@[k]),
            decreases entries.len() - i,
        {
            let e = &entries[i];
            rows.push(
                SessionRow {
                    host: e.host.clone(),
                    connection: e.connection.clone(),
                    engine: e.engine.clone(),
                    db: e.resolved_db.clone(),
                    session: e.session.clone(),
                    opened_at: e.opened_at,
                },
            );
            i = i + 1;
        }
        return Shown::Json(rows);
    }
    let headers: Vec<String> = vec![
        "HOST".to_owned(),
        "CONNECTION".to_owned(),
        "ENGINE".to_owned(),
        "DB".to_owned(),
        "SESSION".to_owned(),
    ];
    let mut rows: Vec<Vec<String>> = Vec::new();
    let mut i: usize = 0;
    while i < entries.len()
        invariant
            i <= entries.len(),
            rows@.len() == i,
            forall|k: int| 0 <= k < i ==> #[trigger] texts_of(rows@[k]@) == session_cells(entries@[k]),
        decreases entries.len() - i,
    {
        let e = &entries[i];
        let row: Vec<String> = vec![
            e.host.clone(),
            e.connection.clone(),
            e.engine.clone(),
            e.resolved_db.clone(),
            e.session.clone(),
        ];
        assert(texts_of(row@) =~= session_cells(entries@[i as int]));
        rows.push(row);
        i = i + 1;
    }
    assert(texts_of(headers@) =~= session_headers());
    assert(rows_texts(rows@) =~= entries@.map_values(|e: Entry| session_cells(e)));
    Shown::Lines(lines_of_table(headers, rows, opts.truncate))
}

/// A table's script: as the JSON object's `script` field, or as it is.
pub fn script(text: &str, opts: Options) -> (res: Shown<String>)
    ensures
        opts.output == OutputFormat::Json ==> (res matches Shown::Json(s) && s@ == text@),
        opts.output == OutputFormat::Text ==> (res matches Shown::Lines(v) && texts_of(v@)
            == seq![text@]),
{
    if opts.output == OutputFormat::Json {
        Shown::Json(text.to_owned())
    } else {
        let lines: Vec<String> = vec![text.to_owned()];
        assert(texts_of(lines@) =~= seq![text@]);
        Shown::Lines(lines)
    }
}

/// A table's structure: itself as JSON, or as a table.
pub fn table_structure(structure: &TableStructure, opts: Options) -> (res: Shown<TableStructure>)
    ensures
        opts.output == OutputFormat::Json ==> (res matches Shown::Json(s) && texts_of(s.headers@)
            == texts_of(structure.headers@) && rows_texts(s.rows@) == rows_texts(structure.rows@)),
        opts.output == OutputFormat::Text ==> (res matches Shown::Lines(lines) && shows_table(
            lines@,
            texts_of(structure.headers@),
            rows_texts(structure.rows@),
            opts.truncate,
        )),
{
    let headers = copy_strings(&structure.headers);
    let mut rows: Vec<Vec<String>> = Vec::new();
    let mut i: usize = 0;
    while i < structure.rows.len()
        invariant
            i <= structure.rows.len(),
            rows@.len() == i,
            forall|k: int| 0 <= k < i ==> #[trigger] texts_of(rows@[k]@) == texts_of(structure.rows@[k]@),
        decreases structure.rows.len() - i,
    {
        let row = copy_strings(&structure.rows[i]);
        rows.push(row);
        i = i + 1;
    }
    assert(rows_texts(rows@) =~= rows_texts(structure.rows@));
    if opts.output == OutputFormat::Json {
        Shown::Json(TableStructure { headers, rows })
    } else {
        Shown::Lines(lines_of_table(headers, rows, opts.truncate))
    }
}

/// Whether `row_count` rows reach `limit`, the limit taken as a `usize` as
/// `as` converts it (a negative limit wraps around).
pub open spec fn limit_reached(row_count: int, limit: int) -> bool {
    if limit >= 0 {
        row_count >= limit
    } else {
        row_count >= usize::MAX as int + 1 + limit
    }
}

/// Whether a result of `row_count` rows reached the query's limit.
pub fn query_limit_reached(row_count: usize, limit: i32) -> (res: bool)
    ensures
        res == limit_reached(row_count as int, limit as int),
{
    if limit >= 0 {
        row_count >= limit as usize
    } else {
        let below: usize = (-(limit as i64) - 1) as usize;
        row_count >= usize::MAX - below
    }
}

/// The line under a query result: the number of rows, and whether the
/// limit was reached.
pub open spec fn summary_text(row_count: nat, limit: int) -> Seq<char> {
    if limit_reached(row_count as int, limit) {
        "("@ + decimal(row_count) + " rows, limit reached)"@
    } else {
        "("@ + decimal(row_count) + " rows)"@
    }
}

/// The line under a query result.
pub fn query_result_summary(res: &ResultSet, limit: i32) -> (out: String)
    ensures
        out@ == summary_text(res.rows@.len(), limit as int),
{
    let row_count = res.rows.len();
    let mut text = chars_of("(");
    append(&mut text, &decimal_vec(row_count));
    if query_limit_reached(row_count, limit) {
        append(&mut text, &chars_of(" rows, limit reached)"));
    } else {
        append(&mut text, &chars_of(" rows)"));
    }
    string_of(&text)
}

/// A query result as JSON output shows it: the columns, each row's cells
/// (`None` for null), the limit and whether it was reached.
#[derive(Debug, Clone)]
pub struct QueryJson {
    pub columns: Vec<ColumnInfo>,
    pub rows: Vec<Vec<Option<String>>>,
    pub limit: i32,
    pub limit_reached: bool,
}

/// A cell as JSON shows it.
pub open spec fn json_cell(c: Cell) -> Option<Seq<char>> {
    if c.is_null {
        None
    } else {
        Some(c.value@)
    }
}

/// An optional text by its view.
pub open spec fn opt_view(o: Option<String>) -> Option<Seq<char>> {
    match o {
        Some(s) => Some(s@),
        None => None,
    }
}

/// The JSON cells of a row.
pub open spec fn json_row_of(out: Seq<Option<String>>, row: Seq<Cell>) -> bool {
    out.len() == row.len() && forall|j: int| 0 <= j < out.len() ==> opt_view(#[trigger] out[j]) == json_cell(row[j])
}

/// JSON tells a null cell from a text: a cell marked null is `null` (`None`)
/// in the JSON row, and any other cell is `Some` of its own text, an empty
/// text included.
pub proof fn law_json_nulls(out: Seq<Option<String>>, row: Seq<Cell>, j: int)
    requires
        json_row_of(out, row),
        0 <= j < row.len(),
    ensures
        row[j].is_null <==> out[j] is None,
        !row[j].is_null ==> (out[j] matches Some(t) && t@ == row[j].value@),
{
    assert(opt_view(out[j]) == json_cell(row[j]));
}

/// The columns by name and type.
pub open spec fn columns_view(c: Seq<ColumnInfo>) -> Seq<(Seq<char>, Seq<char>)> {
    c.map_values(|ci: ColumnInfo| (ci.name@, ci.column_type@))
}

fn json_row(row: &Vec<Cell>) -> (res: Vec<Option<String>>)
    ensures
        json_row_of(res@, row@),
{
    let mut out: Vec<Option<String>> = Vec::new();
    let mut j: usize = 0;
    while j < row.len()
        invariant
            j <= row.len(),
            out@.len() == j,
            forall|k: int| 0 <= k < j ==> opt_view(#[trigger] out@[k]) == json_cell(row@[k]),
        decreases row.len() - j,
    {
        if row[j].is_null {
            out.push(None);
        } else {
            out.push(Some(row[j].value.clone()));
        }
        j = j + 1;
    }
    out
}

/// The JSON value of a query result.
pub fn query_result_json(res: &ResultSet, limit: i32) -> (out: QueryJson)
    ensures
        columns_view(out.columns@) == columns_view(res.columns@),
        out.rows@.len() == res.rows@.len(),
        forall|i: int| 0 <= i < out.rows@.len() ==> json_row_of(#[trigger] out.rows@[i]@, res.rows@[i]@),
        out.limit == limit,
        out.limit_reached == limit_reached(res.rows@.len() as int, limit as int),
{
    let mut columns: Vec<ColumnInfo> = Vec::new();
    let mut k: usize = 0;
    while k < res.columns.len()
        invariant
            k <= res.columns.len(),
            columns@.len() == k,
            forall|m: int| 0 <= m < k ==> #[trigger] columns@[m].name@ == res.columns@[m].name@
                && columns@[m].column_type@ == res.columns@[m].column_type@,
        decreases res.columns.len() - k,
    {
        columns.push(
            ColumnInfo {
                name: res.columns[k].name.clone(),
                column_type: res.columns[k].column_type.clone(),
            },
        );
        k = k + 1;
    }
    assert(columns_view(columns@) =~= columns_view(res.columns@));
    let mut rows: Vec<Vec<Option<String>>> = Vec::new();
    let mut i: usize = 0;
    while i < res.rows.len()
        invariant
            i <= res.rows.len(),
            rows@.len() == i,
            forall|m: int| 0 <= m < i ==> json_row_of(#[trigger] rows@[m]@, res.rows@[m]@),
        decreases res.rows.len() - i,
    {
        rows.push(json_row(&res.rows[i]));
        i = i + 1;
    }
    QueryJson { columns, rows, limit, limit_reached: query_limit_reached(res.rows.len(), limit) }
}

/// The text of a result cell in a table: the grey null mark for null.
pub open spec fn shown_cell(c: Cell) -> Seq<char> {
    if c.is_null {
        painted(seq!['N', 'U', 'L', 'L'], TermColor::BrightBlack)
    } else {
        c.value@
    }
}

/// The cells of a result row in a table.
pub open spec fn shown_row(row: Seq<Cell>) -> Seq<Seq<char>> {
    row.map_values(|c: Cell| shown_cell(c))
}

/// A query result: its JSON value, or a table of the rows followed by an
/// empty line and the summary.
pub fn query_result(res: &ResultSet, limit: i32, opts: Options) -> (out: Shown<QueryJson>)
    ensures
        opts.output == OutputFormat::Json ==> (out matches Shown::Json(j) && columns_view(
            j.columns@,
        ) == columns_view(res.columns@) && j.rows@.len() == res.rows@.len() && (forall|i: int|
            0 <= i < j.rows@.len() ==> json_row_of(#[trigger] j.rows@[i]@, res.rows@[i]@))
            && j.limit == limit && j.limit_reached == limit_reached(
            res.rows@.len() as int,
            limit as int,
        )),
        opts.output == OutputFormat::Text ==> (out matches Shown::Lines(lines) && lines@.len() >= 2
            && shows_table(
            lines@.drop_last().drop_last(),
            res.columns@.map_values(|c: ColumnInfo| c.name@),
            res.rows@.map_values(|r: Vec<Cell>| shown_row(r@)),
            opts.truncate,
        ) && lines@[lines@.len() - 2]@ == Seq::<char>::empty() && lines@.last()@ == summary_text(
            res.rows@.len(),
            limit as int,
        )),
{
    if opts.output == OutputFormat::Json {
        return Shown::Json(query_result_json(res, limit));
    }
    let mut headers: Vec<String> = Vec::new();
    let mut k: usize = 0;
    while k < res.columns.len()
        invariant
            k <= res.columns.len(),
            headers@.len() == k,
            forall|m: int| 0 <= m < k ==> #[trigger] headers@[m]@ == res.columns@[m].name@,
        decreases res.columns.len() - k,
    {
        headers.push(res.columns[k].name.clone());
        k = k + 1;
    }
    assert(texts_of(headers@) =~= res.columns@.map_values(|c: ColumnInfo| c.name@));
    let mut rows: Vec<Vec<String>> = Vec::new();
    let mut i: usize = 0;
    while i < res.rows.len()
        invariant
            i <= res.rows.len(),
            rows@.len() == i,
            forall|m: int| 0 <= m < i ==> #[trigger] texts_of(rows@[m]@) == shown_row(res.rows@[m]@),
        decreases res.rows.len() - i,
    {
        let row = &res.rows[i];
        let mut cells: Vec<String> = Vec::new();
        let mut j: usize = 0;
        while j < row.len()
            invariant
                j <= row.len(),
                cells@.len() == j,
                forall|m: int| 0 <= m < j ==> #[trigger] cells@[m]@ == shown_cell(row@[m]),
            decreases row.len() - j,
        {
            if row[j].is_null {
                cells.push(null_value());
            } else {
                cells.push(row[j].value.clone());
            }
            j = j + 1;
        }
        assert(texts_of(cells@) =~= shown_row(row@));
        rows.push(cells);
        i = i + 1;
    }
    assert(rows_texts(rows@) =~= res.rows@.map_values(|r: Vec<Cell>| shown_row(r@)));
    let mut lines = lines_of_table(headers, rows, opts.truncate);
    let ghost table = lines@;
    lines.push(String::new());
    lines.push(query_result_summary(res, limit));
    assert(lines@.drop_last().drop_last() =~= table);
    Shown::Lines(lines)
}

/// The lines that report one host's login.
pub open spec fn status_block(c: AuthCheck) -> Seq<Seq<char>> {
    let h = c.host@;
    match c.state {
        AuthState::Missing => seq![
            h,
            "  "@ + painted(seq!['X'], TermColor::Red) + " Failed to log in to "@ + h,
            "  - No QueryPie webview session was found."@,
            "  - To authenticate, run: querypie --host "@ + h + " auth login"@,
        ],
        AuthState::Valid => seq![
            h,
            "  "@ + painted(seq!['✓'], TermColor::Green) + " Logged in to "@ + h,
            "  - Webview session: active"@,
            "  - Cookie store: QueryPie webview profile"@,
        ],
        AuthState::Expired => seq![
            h,
            "  "@ + painted(seq!['X'], TermColor::Red) + " Failed to log in to "@ + h,
            "  - The QueryPie webview session is expired."@,
            "  - To re-authenticate, run: querypie --host "@ + h + " auth login"@,
        ],
    }
}

/// The report of the hosts' logins: each host's lines, an empty line
/// between two hosts.
pub open spec fn status_lines(checks: Seq<AuthCheck>) -> Seq<Seq<char>>
    decreases checks.len(),
{
    if checks.len() == 0 {
        Seq::empty()
    } else if checks.len() == 1 {
        status_block(checks[0])
    } else {
        status_lines(checks.drop_last()) + seq![Seq::<char>::empty()] + status_block(checks.last())
    }
}

/// The report of the hosts' logins, and whether some host is not logged
/// in.
pub fn auth_status(checks: &Vec<AuthCheck>) -> (res: (Vec<String>, bool))
    ensures
        texts_of(res.0@) == status_lines(checks@),
        res.1 == exists|i: int| 0 <= i < checks@.len() && !(#[trigger] checks@[i].state is Valid),
{
    let mut lines: Vec<String> = Vec::new();
    let mut failed = false;
    let mut i: usize = 0;
    while i < checks.len()
        invariant
            i <= checks.len(),
            texts_of(lines@) == status_lines(checks@.take(i as int)),
            failed == exists|k: int| 0 <= k < i && !(#[trigger] checks@[k].state is Valid),
        decreases checks.len() - i,
    {
        let ghost before = lines@;
        let c = &checks[i];
        let h = chars_of(c.host.as_str());
        if i > 0 {
            lines.push(String::new());
        }
        lines.push(c.host.clone());
        let icon = match c.state {
            AuthState::Valid => success_icon(),
            _ => error_icon(),
        };
        let mut head = chars_of("  ");
        append(&mut head, &chars_of(icon.as_str()));
        match c.state {
            AuthState::Valid => {
                append(&mut head, &chars_of(" Logged in to "));
                append(&mut head, &h);
                lines.push(string_of(&head));
                lines.push("  - Webview session: active".to_owned());
                lines.push("  - Cookie store: QueryPie webview profile".to_owned());
            },
            AuthState::Missing => {
                failed = true;
                append(&mut head, &chars_of(" Failed to log in to "));
                append(&mut head, &h);
                lines.push(string_of(&head));
                lines.push("  - No QueryPie webview session was found.".to_owned());
                let mut tail = chars_of("  - To authenticate, run: querypie --host ");
                append(&mut tail, &h);
                append(&mut tail, &chars_of(" auth login"));
                lines.push(string_of(&tail));
            },
            AuthState::Expired => {
                failed = true;
                append(&mut head, &chars_of(" Failed to log in to "));
                append(&mut head, &h);
                lines.push(string_of(&head));
                lines.push("  - The QueryPie webview session is expired.".to_owned());
                let mut tail = chars_of("  - To re-authenticate, run: querypie --host ");
                append(&mut tail, &h);
                append(&mut tail, &chars_of(" auth login"));
                lines.push(string_of(&tail));
            },
        }
        proof {
            let t = checks@.take(i as int + 1);
            assert(t.drop_last() == checks@.take(i as int));
            assert(t.last() == checks@[i as int]);
            if i == 0 {
                assert(t.len() == 1);
                assert(texts_of(lines@) =~= status_block(checks@[0]));
            } else {
                assert(texts_of(lines@) =~= texts_of(before) + seq![Seq::<char>::empty()]
                    + status_block(checks@[i as int]));
            }
        }
        i = i + 1;
    }
    assert(checks@.take(checks.len() as int) == checks@);
    (lines, failed)
}

} // verus!
