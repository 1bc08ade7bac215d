//! Database catalog responses.
use vstd::prelude::*;
use crate::text::texts_of;

verus! {

/// The structure of a table: a header row and the rows under it.
#[derive(Debug, Clone, PartialEq, Eq)]
pub struct TableStructure {
    pub headers: Vec<String>,
    pub rows: Vec<Vec<String>>,
}

/// One row of a catalog table.
#[derive(Debug, Clone)]
pub struct DictionaryDataTableRow {
    pub values: Vec<String>,
}

/// A catalog table: its column names and rows.
#[derive(Debug, Clone)]
pub struct DictionaryDataTable {
    pub columns: Vec<String>,
    pub rows: Vec<DictionaryDataTableRow>,
}

/// The response of a table structure request.
#[derive(Debug, Clone)]
pub struct StructureResponse {
    pub data_table: Option<DictionaryDataTable>,
}

/// Why a table structure response could not be decoded.
#[derive(Debug, Clone)]
pub enum CatalogError {
    /// The response holds no table.
    MissingTable,
}

impl CatalogError {
    /// The error's message.
    pub fn message(&self) -> (res: String)
        ensures
            res@ == "table structure response did not include data_table"@,
    {
        "table structure response did not include data_table".to_owned()
    }
}

pub open spec fn row_texts(rows: Seq<Vec<String>>) -> Seq<Seq<Seq<char>>> {
    rows.map_values(|r: Vec<String>| texts_of(r@))
}

pub open spec fn table_row_texts(rows: Seq<DictionaryDataTableRow>) -> Seq<Seq<Seq<char>>> {
    rows.map_values(|r: DictionaryDataTableRow| texts_of(r.values@))
}

fn copy_strings(v: &Vec<String>) -> (res: Vec<String>)
    ensures
        texts_of(res@) == texts_of(v@),
{
    let mut out: Vec<String> = Vec::new();
    let mut i: usize = 0;
    while i < v.len()
        invariant
            i <= v.len(),
            texts_of(out@) == texts_of(v@.take(i as int)),
        decreases v.len() - i,
    {
        let ghost before = out@;
        out.push(v[i].clone());
        assert(texts_of(out@) =~= texts_of(before).push(v@[i as int]@));
        assert(texts_of(v@.take(i as int + 1)) =~= texts_of(v@.take(i as int)).push(v@[i as int]@));
        i = i + 1;
    }
    assert(v@.take(v.len() as int) == v@);
    out
}

/// The structure of a table: the response table's column names as headers
/// and its rows' values as rows.
pub fn decode_table_structure(resp: StructureResponse) -> (res: Result<TableStructure, CatalogError>)
    ensures
        match resp.data_table {
            None => res is Err,
            Some(t) => res matches Ok(s) && texts_of(s.headers@) == texts_of(t.columns@) && row_texts(
                s.rows@,
            ) == table_row_texts(t.rows@),
        },
{
    let data_table = match resp.data_table {
        Some(t) => t,
        None => {
            return Err(CatalogError::MissingTable);
        },
    };
    let mut rows: Vec<Vec<String>> = Vec::new();
    let mut i: usize = 0;
    while i < data_table.rows.len()
        invariant
            i <= data_table.rows.len(),
            row_texts(rows@) == table_row_texts(data_table.rows@.take(i as int)),
        decreases data_table.rows.len() - i,
    {
        let r = copy_strings(&data_table.rows[i].values);
        let ghost before = rows@;
        rows.push(r);
        assert(row_texts(rows@) =~= row_texts(before).push(texts_of(data_table.rows@[i as int].values@)));
        assert(table_row_texts(data_table.rows@.take(i as int + 1)) =~= table_row_texts(
            data_table.rows@.take(i as int),
        ).push(texts_of(data_table.rows@[i as int].values@)));
        i = i + 1;
    }
    assert(data_table.rows@.take(data_table.rows.len() as int) == data_table.rows@);
    Ok(TableStructure { headers: data_table.columns, rows })
}

} // verus!
