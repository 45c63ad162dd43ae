//! Canned answers for the fixed set of introspection queries that BI
//! workbenches issue. The two `SHOW SESSION VARIABLES` forms are matched
//! case-sensitively; the `select`/`set`/`show character set` forms are
//! matched on the lowercased query.
use vstd::prelude::*;
use vstd::string::*;

use crate::table::{CellView, Column, ColumnType, DataFrame, Row, TableValue};
use crate::values::lower_of;
use crate::values::lowercase;

verus! {

/// A frame of one `String` column holding one string cell.
pub open spec fn spec_single_frame(col: Seq<char>, val: Seq<char>, f: DataFrame) -> bool {
    &&& f.spec_columns().len() == 1
    &&& f.spec_columns()[0].spec_name() == col
    &&& f.spec_columns()[0].spec_type() == ColumnType::String
    &&& f.spec_columns()[0].spec_index() == 0
    &&& f.spec_rows().len() == 1
    &&& f.spec_rows()[0].view_cells() == seq![CellView::Str(val)]
}

/// A frame of the two session-variable columns holding one `(name, value)`
/// row.
pub open spec fn spec_variable_frame(name: Seq<char>, value: Seq<char>, f: DataFrame) -> bool {
    &&& f.spec_columns().len() == 2
    &&& f.spec_columns()[0].spec_name() == "Variable_name"@
    &&& f.spec_columns()[0].spec_type() == ColumnType::String
    &&& f.spec_columns()[0].spec_index() == 0
    &&& f.spec_columns()[1].spec_name() == "Value"@
    &&& f.spec_columns()[1].spec_type() == ColumnType::String
    &&& f.spec_columns()[1].spec_index() == 1
    &&& f.spec_rows().len() == 1
    &&& f.spec_rows()[0].view_cells() == seq![CellView::Str(name), CellView::Str(value)]
}

pub open spec fn spec_empty_frame(f: DataFrame) -> bool {
    f.spec_columns().len() == 0 && f.spec_rows().len() == 0
}

/// The queries the shim answers without touching the store.
pub open spec fn is_workbench_query(q: Seq<char>) -> bool {
    ||| q == "SHOW SESSION VARIABLES LIKE 'lower_case_table_names'"@
    ||| q == "SHOW SESSION VARIABLES LIKE 'sql_mode'"@
    ||| lower_of(q) == "select current_user()"@
    ||| lower_of(q) == "select connection_id()"@
    ||| lower_of(q) == "select connection_id() as connectionid"@
    ||| lower_of(q) == "set character set utf8"@
    ||| lower_of(q) == "set names utf8"@
    ||| lower_of(q) == "show character set where charset = 'utf8mb4'"@
}

fn single_frame(col: &str, val: &str) -> (f: DataFrame)
    ensures
        spec_single_frame(col@, val@, f),
{
    let mut columns: Vec<Column> = Vec::new();
    columns.push(Column::new(String::from_str(col), ColumnType::String, 0));
    let mut cells: Vec<TableValue> = Vec::new();
    cells.push(TableValue::String(String::from_str(val)));
    let ghost gcells = cells@;
    let mut rows: Vec<Row> = Vec::new();
    rows.push(Row::new(cells));
    let f = DataFrame::new(columns, rows);
    proof {
        assert(f.spec_rows()[0].view_cells() =~= seq![CellView::Str(val@)]);
    }
    f
}

fn variable_frame(name: &str, value: &str) -> (f: DataFrame)
    ensures
        spec_variable_frame(name@, value@, f),
{
    let mut columns: Vec<Column> = Vec::new();
    columns.push(Column::new(String::from_str("Variable_name"), ColumnType::String, 0));
    columns.push(Column::new(String::from_str("Value"), ColumnType::String, 1));
    let mut cells: Vec<TableValue> = Vec::new();
    cells.push(TableValue::String(String::from_str(name)));
    cells.push(TableValue::String(String::from_str(value)));
    let mut rows: Vec<Row> = Vec::new();
    rows.push(Row::new(cells));
    let f = DataFrame::new(columns, rows);
    proof {
        assert(f.spec_rows()[0].view_cells() =~= seq![CellView::Str(name@), CellView::Str(value@)]);
    }
    f
}

/// Answer a workbench introspection query with its canned frame, or report
/// that the query is not one of them.
pub fn handle_workbench_queries(q: &str) -> (r: Option<DataFrame>)
    ensures
        r is Some <==> is_workbench_query(q@),
        r matches Some(f) ==> {
            let low = lower_of(q@);
            &&& (q@ == "SHOW SESSION VARIABLES LIKE 'lower_case_table_names'"@)
                ==> spec_variable_frame("lower_case_table_names"@, "2"@, f)
            &&& (q@ != "SHOW SESSION VARIABLES LIKE 'lower_case_table_names'"@ && q@
                == "SHOW SESSION VARIABLES LIKE 'sql_mode'"@) ==> spec_variable_frame(
                "sql_mode"@,
                "TRADITIONAL"@,
                f,
            )
            &&& (q@ != "SHOW SESSION VARIABLES LIKE 'lower_case_table_names'"@ && q@
                != "SHOW SESSION VARIABLES LIKE 'sql_mode'"@) ==> {
                &&& (low == "select current_user()"@) ==> spec_single_frame("user"@, "root"@, f)
                &&& (low != "select current_user()"@ && low == "select connection_id()"@)
                    ==> spec_single_frame("connection_id"@, "1"@, f)
                &&& (low != "select current_user()"@ && low != "select connection_id()"@ && low
                    == "select connection_id() as connectionid"@) ==> spec_single_frame(
                    "connectionId"@,
                    "1"@,
                    f,
                )
                &&& (low != "select current_user()"@ && low != "select connection_id()"@ && low
                    != "select connection_id() as connectionid"@) ==> spec_empty_frame(f)
            }
        },
{
    let qs = q.to_owned();
    if qs == String::from_str("SHOW SESSION VARIABLES LIKE 'lower_case_table_names'") {
        return Some(variable_frame("lower_case_table_names", "2"));
    }
    if qs == String::from_str("SHOW SESSION VARIABLES LIKE 'sql_mode'") {
        return Some(variable_frame("sql_mode", "TRADITIONAL"));
    }
    let low = lowercase(q);
    if low == String::from_str("select current_user()") {
        return Some(single_frame("user", "root"));
    }
    if low == String::from_str("select connection_id()") {
        return Some(single_frame("connection_id", "1"));
    }
    if low == String::from_str("select connection_id() as connectionid") {
        return Some(single_frame("connectionId", "1"));
    }
    if low == String::from_str("set character set utf8") || low == String::from_str(
        "set names utf8",
    ) || low == String::from_str("show character set where charset = 'utf8mb4'") {
        return Some(DataFrame::empty());
    }
    None
}

} // verus!
