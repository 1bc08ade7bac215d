//! Query results: the decoding of result tables and the parameters of a
//! query.
use vstd::prelude::*;
use crate::failure::{failure_text, Failure};
use crate::text::{chars_of, eq_chars, has_sub};

verus! {

/// A MessagePack value as rmpv reads it.
#[verifier::external_type_specification]
#[verifier::external_body]
pub struct ExMsgpackValue(rmpv::Value);

/// A result column.
#[derive(Debug, Clone)]
pub struct ColumnInfo {
    pub name: String,
    pub column_type: String,
}

/// A result cell: its text, or null.
#[derive(Debug, Clone)]
pub struct Cell {
    pub value: String,
    pub is_null: bool,
}

/// The columns and rows of a query result.
#[derive(Debug, Clone)]
pub struct ResultSet {
    pub columns: Vec<ColumnInfo>,
    pub rows: Vec<Vec<Cell>>,
}

/// A MessagePack value, with the text that the MessagePack library
/// displays it as.
#[derive(Debug)]
pub struct MsgValue {
    pub kind: MsgKind,
    pub text: String,
}

/// The kinds of MessagePack values that result decoding tells apart;
/// integers, floats, binary and extension values are `Other`.
#[derive(Debug)]
pub enum MsgKind {
    Nil,
    Boolean(bool),
    /// A string, or `None` when its bytes are not UTF-8.
    Str(Option<String>),
    Array(Vec<MsgValue>),
    Entries(Vec<MsgEntry>),
    Other,
}

/// A key and value of a MessagePack map.
#[derive(Debug)]
pub struct MsgEntry {
    pub key: MsgValue,
    pub value: MsgValue,
}

/// A column of a result table as the server describes it.
#[derive(Debug, Clone)]
pub struct Column {
    pub ordinal: i32,
    pub name: String,
    pub column_type: String,
}

/// A result table: its columns and its row blocks, each a MessagePack blob.
#[derive(Debug)]
pub struct DataTable {
    pub handle: String,
    pub row_count: i32,
    pub columns: Vec<Column>,
    pub rows: Vec<Vec<u8>>,
}

/// The response of a result table request.
#[derive(Debug)]
pub struct GetDataTableResponse {
    pub table: Option<DataTable>,
}

/// Why a result table could not be decoded.
#[derive(Debug, Clone)]
pub enum SqlError {
    /// The response holds no table.
    NoTable,
    /// A row block is not valid MessagePack; the decoder's message.
    Decode(String),
    /// The parse step returned no statement.
    NoStatement,
}

impl SqlError {
    /// The error's message.
    pub fn message(&self) -> (res: String)
        ensures
            match self {
                SqlError::NoTable => res@ == "getDataTable returned no table"@,
                SqlError::Decode(m) => res@ == m@,
                SqlError::NoStatement => res@ == "parse returned no statement"@,
            },
    {
        match self {
            SqlError::NoTable => "getDataTable returned no table".to_owned(),
            SqlError::Decode(m) => m.clone(),
            SqlError::NoStatement => "parse returned no statement".to_owned(),
        }
    }
}

/// Is a MessagePack value the string `name`.
pub open spec fn key_is(k: MsgValue, name: Seq<char>) -> bool {
    k.kind matches MsgKind::Str(Some(s)) && s@ == name
}

/// The value of the first entry of a map whose key is the string `name`.
pub open spec fn map_get(entries: Seq<MsgEntry>, name: Seq<char>) -> Option<MsgValue>
    decreases entries.len(),
{
    if entries.len() == 0 {
        None
    } else if key_is(entries[0].key, name) {
        Some(entries[0].value)
    } else {
        map_get(entries.drop_first(), name)
    }
}

/// The text of a cell value: empty for nil, the string itself for a
/// string (empty when it is not UTF-8), and the displayed text otherwise.
pub open spec fn value_text(v: MsgValue) -> Seq<char> {
    match v.kind {
        MsgKind::Nil => Seq::empty(),
        MsgKind::Str(s) => match s {
            Some(x) => x@,
            None => Seq::empty(),
        },
        _ => v.text@,
    }
}

/// A cell of a result row: a value that is not a map is shown as
/// displayed; a map is null when its `n` entry is `true`, and otherwise
/// holds the text of its `v` entry (empty when there is none).
pub open spec fn cell_view(v: MsgValue) -> (Seq<char>, bool) {
    match v.kind {
        MsgKind::Entries(entries) => {
            let null = match map_get(entries@, "n"@) {
                Some(n) => n.kind matches MsgKind::Boolean(b) && b,
                None => false,
            };
            if null {
                (Seq::empty(), true)
            } else {
                match map_get(entries@, "v"@) {
                    Some(x) => (value_text(x), false),
                    None => (Seq::empty(), false),
                }
            }
        },
        _ => (v.text@, false),
    }
}

pub open spec fn cells_view(cells: Seq<MsgValue>) -> Seq<(Seq<char>, bool)> {
    cells.map_values(|c: MsgValue| cell_view(c))
}

/// The cells of a row: a row is a map whose `v` entry is an array of cells;
/// anything else is no row.
pub open spec fn row_view(row: MsgValue) -> Option<Seq<(Seq<char>, bool)>> {
    match row.kind {
        MsgKind::Entries(entries) => match map_get(entries@, "v"@) {
            Some(x) => match x.kind {
                MsgKind::Array(cells) => Some(cells_view(cells@)),
                _ => None,
            },
            None => None,
        },
        _ => None,
    }
}

/// The rows of a block's rows, skipping what is no row.
pub open spec fn block_rows(rows: Seq<MsgValue>) -> Seq<Seq<(Seq<char>, bool)>>
    decreases rows.len(),
{
    if rows.len() == 0 {
        Seq::empty()
    } else {
        let rest = block_rows(rows.drop_last());
        match row_view(rows.last()) {
            Some(r) => rest.push(r),
            None => rest,
        }
    }
}

/// The rows of a block: a block is an array of rows; anything else holds
/// none.
pub open spec fn block_view(block: MsgValue) -> Seq<Seq<(Seq<char>, bool)>> {
    match block.kind {
        MsgKind::Array(rows) => block_rows(rows@),
        _ => Seq::empty(),
    }
}

/// The rows of all blocks in order, or the first block's decoding error.
pub open spec fn table_rows(blocks: Seq<Result<MsgValue, Seq<char>>>) -> Result<
    Seq<Seq<(Seq<char>, bool)>>,
    Seq<char>,
>
    decreases blocks.len(),
{
    if blocks.len() == 0 {
        Ok(Seq::empty())
    } else {
        match table_rows(blocks.drop_last()) {
            Err(e) => Err(e),
            Ok(rows) => match blocks.last() {
                Ok(b) => Ok(rows + block_view(b)),
                Err(e) => Err(e),
            },
        }
    }
}

pub open spec fn cell_pair(c: Cell) -> (Seq<char>, bool) {
    (c.value@, c.is_null)
}

pub open spec fn row_pairs(r: Vec<Cell>) -> Seq<(Seq<char>, bool)> {
    r@.map_values(|c: Cell| cell_pair(c))
}

pub open spec fn rows_view(rows: Seq<Vec<Cell>>) -> Seq<Seq<(Seq<char>, bool)>> {
    rows.map_values(|r: Vec<Cell>| row_pairs(r))
}

pub open spec fn columns_view(cols: Seq<ColumnInfo>) -> Seq<(Seq<char>, Seq<char>)> {
    cols.map_values(|c: ColumnInfo| (c.name@, c.column_type@))
}

pub open spec fn table_columns(cols: Seq<Column>) -> Seq<(Seq<char>, Seq<char>)> {
    cols.map_values(|c: Column| (c.name@, c.column_type@))
}

fn is_key(k: &MsgValue, name: &Vec<char>) -> (res: bool)
    ensures
        res == key_is(*k, name@),
{
    match &k.kind {
        MsgKind::Str(Some(s)) => {
            let v = chars_of(s.as_str());
            eq_chars(&v, name)
        },
        _ => false,
    }
}

fn find_entry<'a>(entries: &'a Vec<MsgEntry>, name: &str) -> (res: Option<&'a MsgValue>)
    ensures
        match res {
            Some(v) => map_get(entries@, name@) == Some(*v),
            None => map_get(entries@, name@) is None,
        },
{
    let key = chars_of(name);
    let mut i: usize = 0;
    assert(entries@.skip(0) == entries@);
    while i < entries.len()
        invariant
            i <= entries.len(),
            key@ == name@,
            map_get(entries@, name@) == map_get(entries@.skip(i as int), name@),
        decreases entries.len() - i,
    {
        assert(entries@.skip(i as int)[0] == entries@[i as int]);
        if is_key(&entries[i].key, &key) {
            return Some(&entries[i].value);
        }
        assert(entries@.skip(i as int).drop_first() == entries@.skip(i + 1));
        i = i + 1;
    }
    None
}

/// The text of a cell value (see `value_text`).
pub fn value_to_string(v: &MsgValue) -> (res: String)
    ensures
        res@ == value_text(*v),
{
    match &v.kind {
        MsgKind::Nil => String::new(),
        MsgKind::Str(s) => match s {
            Some(x) => x.clone(),
            None => String::new(),
        },
        _ => v.text.clone(),
    }
}

/// A cell of a result row (see `cell_view`).
pub fn to_cell(v: &MsgValue) -> (res: Cell)
    ensures
        cell_pair(res) == cell_view(*v),
{
    match &v.kind {
        MsgKind::Entries(entries) => {
            let null = match find_entry(entries, "n") {
                Some(n) => match &n.kind {
                    MsgKind::Boolean(b) => *b,
                    _ => false,
                },
                None => false,
            };
            if null {
                Cell { value: String::new(), is_null: true }
            } else {
                match find_entry(entries, "v") {
                    Some(x) => Cell { value: value_to_string(x), is_null: false },
                    None => Cell { value: String::new(), is_null: false },
                }
            }
        },
        _ => Cell { value: v.text.clone(), is_null: false },
    }
}

fn row_cells(row: &MsgValue) -> (res: Option<Vec<Cell>>)
    ensures
        match res {
            Some(r) => row_view(*row) == Some(row_pairs(r)),
            None => row_view(*row) is None,
        },
{
    match &row.kind {
        MsgKind::Entries(entries) => match find_entry(entries, "v") {
            Some(x) => match &x.kind {
                MsgKind::Array(cells) => {
                    let mut out: Vec<Cell> = Vec::new();
                    let mut i: usize = 0;
                    while i < cells.len()
                        invariant
                            i <= cells.len(),
                            out@.len() == i,
                            forall|k: int| 0 <= k < i ==> cell_pair(#[trigger] out@[k]) == cell_view(
                                cells@[k],
                            ),
                        decreases cells.len() - i,
                    {
                        out.push(to_cell(&cells[i]));
                        i = i + 1;
                    }
                    assert(row_pairs(out) =~= cells_view(cells@));
                    Some(out)
                },
                _ => None,
            },
            None => None,
        },
        _ => None,
    }
}

/// The value that `rmpv::decode::read_value` reads from a blob (with the
/// text that rmpv displays each part as), or the text of its error.
pub uninterp spec fn msgpack_value(blob: Seq<u8>) -> Result<MsgValue, Seq<char>>;

/// Reads one MessagePack value from a blob with `rmpv::decode::read_value`
/// and gives it in the library's terms; on failure, the error's text.
#[verifier::external_body]
fn read_msgpack(blob: &[u8]) -> (res: Result<MsgValue, String>)
    ensures
        match res {
            Ok(v) => msgpack_value(blob@) == Ok::<MsgValue, Seq<char>>(v),
            Err(e) => msgpack_value(blob@) == Err::<MsgValue, Seq<char>>(e@),
        },
{
    match rmpv::decode::read_value(&mut &blob[..]) {
        Ok(value) => Ok(msg_value_of(&value)),
        Err(err) => Err(err.to_string()),
    }
}

/// The parts of an rmpv value, variant by variant, each with the text that
/// rmpv displays it as; this is the conversion of `read_msgpack`'s result,
/// apart because it recurses into arrays and maps.
#[verifier::external_body]
fn msg_value_of(value: &rmpv::Value) -> MsgValue {
    let kind = match value {
        rmpv::Value::Nil => MsgKind::Nil,
        rmpv::Value::Boolean(b) => MsgKind::Boolean(*b),
        rmpv::Value::String(s) => MsgKind::Str(s.as_str().map(|t| t.to_string())),
        rmpv::Value::Array(items) => MsgKind::Array(items.iter().map(msg_value_of).collect()),
        rmpv::Value::Map(entries) => MsgKind::Entries(
            entries.iter().map(|(k, v)| MsgEntry { key: msg_value_of(k), value: msg_value_of(v) }).collect(),
        ),
        _ => MsgKind::Other,
    };
    MsgValue { kind, text: value.to_string() }
}

/// What each blob decodes to.
pub open spec fn decoded_blocks(blobs: Seq<Vec<u8>>) -> Seq<Result<MsgValue, Seq<char>>> {
    blobs.map_values(|b: Vec<u8>| msgpack_value(b@))
}

/// The columns of a result table.
fn decode_columns(cols: &Vec<Column>) -> (res: Vec<ColumnInfo>)
    ensures
        columns_view(res@) == table_columns(cols@),
{
    let mut columns: Vec<ColumnInfo> = Vec::new();
    let mut i: usize = 0;
    while i < cols.len()
        invariant
            i <= cols.len(),
            columns_view(columns@) == table_columns(cols@.take(i as int)),
        decreases cols.len() - i,
    {
        let c = &cols[i];
        let ghost before = columns@;
        columns.push(ColumnInfo { name: c.name.clone(), column_type: c.column_type.clone() });
        assert(columns_view(columns@) =~= columns_view(before).push((c.name@, c.column_type@)));
        assert(table_columns(cols@.take(i as int + 1)) =~= table_columns(cols@.take(i as int)).push(
            (c.name@, c.column_type@),
        ));
        i = i + 1;
    }
    assert(cols@.take(cols.len() as int) == cols@);
    columns
}

/// Appends the rows of a decoded block (see `block_view`).
pub fn push_block_rows(rows: &mut Vec<Vec<Cell>>, block: &MsgValue)
    ensures
        rows_view(final(rows)@) == rows_view(old(rows)@) + block_view(*block),
{
    let ghost r0 = rows_view(rows@);
    match &block.kind {
        MsgKind::Array(items) => {
            let mut k: usize = 0;
            assert(r0 + block_rows(items@.take(0)) == r0) by {
                assert(items@.take(0) =~= Seq::<MsgValue>::empty());
            }
            while k < items.len()
                invariant
                    k <= items.len(),
                    rows_view(rows@) == r0 + block_rows(items@.take(k as int)),
                decreases items.len() - k,
            {
                assert(items@.take(k as int + 1).drop_last() == items@.take(k as int));
                assert(items@.take(k as int + 1).last() == items@[k as int]);
                match row_cells(&items[k]) {
                    Some(r) => {
                        let ghost before = rows@;
                        rows.push(r);
                        assert(rows_view(rows@) =~= rows_view(before).push(row_pairs(r)));
                    },
                    None => {},
                }
                k = k + 1;
            }
            assert(items@.take(items.len() as int) == items@);
        },
        _ => {
            assert(r0 + Seq::<Seq<(Seq<char>, bool)>>::empty() == r0);
        },
    }
}

/// Decodes a result table into columns and rows: each blob is read as
/// MessagePack, and the rows of every block follow in order (see
/// `table_rows`); the first blob that does not decode is the error.
pub fn decode_result(gdt: &GetDataTableResponse) -> (res: Result<ResultSet, SqlError>)
    ensures
        match gdt.table {
            None => res matches Err(SqlError::NoTable),
            Some(t) => match table_rows(decoded_blocks(t.rows@)) {
                Ok(rows) => res matches Ok(r) && columns_view(r.columns@) == table_columns(
                    t.columns@,
                ) && rows_view(r.rows@) == rows,
                Err(e) => res matches Err(SqlError::Decode(m)) && m@ == e,
            },
        },
{
    let table = match &gdt.table {
        Some(t) => t,
        None => {
            return Err(SqlError::NoTable);
        },
    };
    let columns = decode_columns(&table.columns);
    let blobs = &table.rows;
    let ghost blocks = decoded_blocks(blobs@);
    let mut rows: Vec<Vec<Cell>> = Vec::new();
    let mut b: usize = 0;
    assert(rows_view(rows@) =~= Seq::<Seq<(Seq<char>, bool)>>::empty());
    assert(blocks.take(0) =~= Seq::<Result<MsgValue, Seq<char>>>::empty());
    while b < blobs.len()
        invariant
            b <= blobs.len(),
            gdt.table == Some(*table),
            blobs@ == table.rows@,
            columns_view(columns@) == table_columns(table.columns@),
            blocks == decoded_blocks(blobs@),
            table_rows(blocks.take(b as int)) == Ok::<Seq<Seq<(Seq<char>, bool)>>, Seq<char>>(
                rows_view(rows@),
            ),
        decreases blobs.len() - b,
    {
        assert(blocks.take(b as int + 1).drop_last() == blocks.take(b as int));
        assert(blocks.take(b as int + 1).last() == msgpack_value(blobs@[b as int]@));
        match read_msgpack(blobs[b].as_slice()) {
            Err(e) => {
                proof {
                    lemma_table_rows_err(blocks, b as int + 1);
                }
                return Err(SqlError::Decode(e));
            },
            Ok(block) => {
                push_block_rows(&mut rows, &block);
            },
        }
        b = b + 1;
    }
    assert(blocks.take(blobs.len() as int) == blocks);
    Ok(ResultSet { columns, rows })
}

proof fn lemma_table_rows_err(blocks: Seq<Result<MsgValue, Seq<char>>>, n: int)
    requires
        0 <= n <= blocks.len(),
        table_rows(blocks.take(n)) is Err,
    ensures
        table_rows(blocks) == table_rows(blocks.take(n)),
    decreases blocks.len() - n,
{
    if n < blocks.len() {
        assert(blocks.take(n + 1).drop_last() == blocks.take(n));
        lemma_table_rows_err(blocks, n + 1);
    } else {
        assert(blocks.take(n) == blocks);
    }
}

/// What an executed statement reports.
#[derive(Debug, Clone)]
pub struct CommandExecutedState {
    pub sql: String,
    pub execution_time: i64,
    pub db: String,
    pub object_name: String,
    pub columns: Vec<Column>,
    pub is_editable: bool,
}

/// One statement's part of an execution report.
#[derive(Debug, Clone)]
pub struct ExecutionPayload {
    pub sql_id: String,
    pub executed: Option<CommandExecutedState>,
    pub sentence_index: i32,
}

/// The report of an execution.
#[derive(Debug, Clone)]
pub struct ExecutionPayloadGroup {
    pub payloads: Vec<ExecutionPayload>,
}

/// The columns of every executed statement of a report, in order.
pub open spec fn executed_columns(payloads: Seq<ExecutionPayload>) -> Seq<(Seq<char>, Seq<char>)>
    decreases payloads.len(),
{
    if payloads.len() == 0 {
        Seq::empty()
    } else {
        let rest = executed_columns(payloads.drop_last());
        match payloads.last().executed {
            Some(e) => rest + table_columns(e.columns@),
            None => rest,
        }
    }
}

/// The columns that an execution reports (none when its report could not
/// be decoded).
pub fn decode_execute_columns(group: Option<&ExecutionPayloadGroup>) -> (res: Vec<ColumnInfo>)
    ensures
        columns_view(res@) == match group {
            Some(g) => executed_columns(g.payloads@),
            None => Seq::empty(),
        },
{
    let mut out: Vec<ColumnInfo> = Vec::new();
    let g = match group {
        Some(g) => g,
        None => {
            assert(columns_view(out@) =~= Seq::<(Seq<char>, Seq<char>)>::empty());
            return out;
        },
    };
    let ps = &g.payloads;
    let mut i: usize = 0;
    assert(columns_view(out@) =~= executed_columns(ps@.take(0)));
    while i < ps.len()
        invariant
            i <= ps.len(),
            columns_view(out@) == executed_columns(ps@.take(i as int)),
        decreases ps.len() - i,
    {
        assert(ps@.take(i as int + 1).drop_last() == ps@.take(i as int));
        assert(ps@.take(i as int + 1).last() == ps@[i as int]);
        match &ps[i].executed {
            Some(e) => {
                let ghost o0 = columns_view(out@);
                let mut k: usize = 0;
                while k < e.columns.len()
                    invariant
                        k <= e.columns.len(),
                        columns_view(out@) == o0 + table_columns(e.columns@.take(k as int)),
                    decreases e.columns.len() - k,
                {
                    let c = &e.columns[k];
                    let ghost before = out@;
                    out.push(ColumnInfo { name: c.name.clone(), column_type: c.column_type.clone() });
                    assert(columns_view(out@) =~= columns_view(before).push((c.name@, c.column_type@)));
                    assert(table_columns(e.columns@.take(k as int + 1)) =~= table_columns(
                        e.columns@.take(k as int),
                    ).push((c.name@, c.column_type@)));
                    k = k + 1;
                }
                assert(e.columns@.take(e.columns.len() as int) == e.columns@);
            },
            None => {},
        }
        i = i + 1;
    }
    assert(ps@.take(ps.len() as int) == ps@);
    out
}

/// Does an error message report that the statement produced no result set.
pub fn is_empty_result_message(message: &str) -> (res: bool)
    ensures
        res == has_sub(message@, "SqlResultsetNotFound"@),
{
    let m = chars_of(message);
    let n = chars_of("SqlResultsetNotFound");
    crate::text::contains(&m, &n)
}

/// The row limit of a query: a limit that is not positive means 1000.
pub fn query_limit(limit: i32) -> (res: i32)
    ensures
        res == if limit <= 0 {
            1000
        } else {
            limit
        },
{
    if limit <= 0 {
        1000
    } else {
        limit
    }
}

/// The SQL dialect of a query: dialect 0 means 1.
pub fn query_dialect(dialect: i32) -> (res: i32)
    ensures
        res == if dialect == 0 {
            1
        } else {
            dialect
        },
{
    if dialect == 0 {
        1
    } else {
        dialect
    }
}

/// The parameters of a query's requests: the dialect of its parse request,
/// and the row limit that its execute request applies and the row count that
/// its result table request asks for.
#[derive(Debug, Clone, Copy)]
pub struct QueryPlan {
    pub dialect: i32,
    pub use_limit: bool,
    pub row_limit: i32,
    pub row_count: i32,
}

/// The parameters of a query with the given limit and dialect: the limit is
/// always applied, and the result table is asked for as many rows.
pub fn query_plan(limit: i32, dialect: i32) -> (res: QueryPlan)
    ensures
        res.dialect == (if dialect == 0 {
            1
        } else {
            dialect
        }),
        res.use_limit,
        res.row_limit == (if limit <= 0 {
            1000
        } else {
            limit
        }),
        res.row_count == res.row_limit,
{
    let row_limit = query_limit(limit);
    QueryPlan { dialect: query_dialect(dialect), use_limit: true, row_limit, row_count: row_limit }
}

/// The statement that a query executes: the first that the parse step
/// returned; none is an error.
pub fn first_statement<T>(parsed: Vec<T>) -> (res: Result<T, SqlError>)
    ensures
        parsed@.len() == 0 ==> res matches Err(SqlError::NoStatement),
        parsed@.len() > 0 ==> res == Ok::<T, SqlError>(parsed@[0]),
{
    let mut parsed = parsed;
    if parsed.len() == 0 {
        Err(SqlError::NoStatement)
    } else {
        Ok(parsed.remove(0))
    }
}

/// The result of a statement that produced no result set: the columns that
/// its execution reported and no rows.
pub fn empty_result(columns: Vec<ColumnInfo>) -> (res: ResultSet)
    ensures
        res.columns@ == columns@,
        res.rows@.len() == 0,
{
    ResultSet { columns, rows: Vec::new() }
}

/// The result of a query from what its result table request came to: the
/// decoded table; the executed statement's columns and no rows when the
/// statement produced no result set; the failure otherwise.
pub fn data_table_result(
    outcome: Result<GetDataTableResponse, Failure>,
    execute_columns: Vec<ColumnInfo>,
) -> (res: Result<ResultSet, Failure>)
    ensures
        match outcome {
            Ok(gdt) => match gdt.table {
                None => res matches Err(Failure::Message(m)) && m@ == "getDataTable returned no table"@,
                Some(t) => match table_rows(decoded_blocks(t.rows@)) {
                    Ok(rows) => res matches Ok(r) && columns_view(r.columns@) == table_columns(
                        t.columns@,
                    ) && rows_view(r.rows@) == rows,
                    Err(e) => res matches Err(Failure::Message(m)) && m@ == e,
                },
            },
            Err(e) => if has_sub(failure_text(e), "SqlResultsetNotFound"@) {
                res matches Ok(r) && r.columns@ == execute_columns@ && r.rows@.len() == 0
            } else {
                res == Err::<ResultSet, Failure>(e)
            },
        },
{
    match outcome {
        Ok(gdt) => match decode_result(&gdt) {
            Ok(r) => Ok(r),
            Err(e) => Err(Failure::Message(e.message())),
        },
        Err(e) => {
            let text = e.message();
            if is_empty_result_message(text.as_str()) {
                Ok(empty_result(execute_columns))
            } else {
                Err(e)
            }
        },
    }
}

} // verus!
