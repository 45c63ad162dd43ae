//! Cell values, rows, columns and data frames: the shapes that statements
//! produce and that the metadata model stores.
use vstd::prelude::*;

verus! {

/// A timestamp cell: nanoseconds since the Unix epoch.
#[derive(Debug, Clone, Copy, PartialEq, Eq, Structural)]
pub struct TimestampValue {
    pub unix_nano: i64,
}

impl TimestampValue {
    pub fn new(unix_nano: i64) -> (t: TimestampValue)
        ensures
            t.unix_nano == unix_nano,
    {
        TimestampValue { unix_nano }
    }

    pub fn get_time_stamp(&self) -> (n: i64)
        ensures
            n == self.unix_nano,
    {
        self.unix_nano
    }
}

/// A cell: a tagged variant over the eight column types plus `Null`.
/// `Decimal` and `Float` carry the canonical decimal string of the value.
#[derive(Debug, Clone, PartialEq, Eq)]
pub enum TableValue {
    Null,
    String(String),
    Int(i64),
    Decimal(String),
    Float(String),
    Bytes(Vec<u8>),
    Timestamp(TimestampValue),
    Boolean(bool),
}

/// The mathematical shape of a cell: string-like payloads as character
/// sequences, bytes as byte sequences.
pub enum CellView {
    Null,
    Str(Seq<char>),
    Int(int),
    Decimal(Seq<char>),
    Float(Seq<char>),
    Bytes(Seq<u8>),
    Timestamp(int),
    Boolean(bool),
}

impl View for TableValue {
    type V = CellView;

    open spec fn view(&self) -> CellView {
        match self {
            TableValue::Null => CellView::Null,
            TableValue::String(s) => CellView::Str(s@),
            TableValue::Int(v) => CellView::Int(*v as int),
            TableValue::Decimal(s) => CellView::Decimal(s@),
            TableValue::Float(s) => CellView::Float(s@),
            TableValue::Bytes(b) => CellView::Bytes(b@),
            TableValue::Timestamp(t) => CellView::Timestamp(t.unix_nano as int),
            TableValue::Boolean(b) => CellView::Boolean(*b),
        }
    }
}

/// A row: a fixed-width ordered sequence of cells.
#[derive(Debug, Clone, PartialEq, Eq)]
pub struct Row {
    pub values: Vec<TableValue>,
}

impl Row {
    pub open spec fn spec_values(&self) -> Seq<TableValue> {
        self.values@
    }

    /// The row as a sequence of cell views.
    pub open spec fn view_cells(&self) -> Seq<CellView> {
        self.values@.map_values(|v: TableValue| v@)
    }

    pub fn new(values: Vec<TableValue>) -> (r: Row)
        ensures
            r.spec_values() == values@,
    {
        Row { values }
    }

    pub fn values(&self) -> (v: &Vec<TableValue>)
        ensures
            v@ == self.spec_values(),
    {
        &self.values
    }
}

/// The internal column types a declared SQL type maps to.
#[derive(Debug, Clone, Copy, PartialEq, Eq, Structural)]
pub enum ColumnType {
    String,
    Int,
    Decimal { precision: u64, scale: u64 },
    Float,
    Bytes,
    HyperLogLog,
    Timestamp,
    Boolean,
}

/// A column of a table: name, type, and position. The position equals the
/// declaration order and never changes.
#[derive(Debug, Clone, PartialEq, Eq)]
pub struct Column {
    pub name: String,
    pub column_type: ColumnType,
    pub column_index: usize,
}

impl Column {
    pub open spec fn spec_name(&self) -> Seq<char> {
        self.name@
    }

    pub open spec fn spec_type(&self) -> ColumnType {
        self.column_type
    }

    pub open spec fn spec_index(&self) -> usize {
        self.column_index
    }

    pub fn new(name: String, column_type: ColumnType, column_index: usize) -> (c: Column)
        ensures
            c.spec_name() == name@,
            c.spec_type() == column_type,
            c.spec_index() == column_index,
    {
        Column { name, column_type, column_index }
    }

    pub fn get_name(&self) -> (n: &String)
        ensures
            n@ == self.spec_name(),
    {
        &self.name
    }

    pub fn get_column_type(&self) -> (t: ColumnType)
        ensures
            t == self.spec_type(),
    {
        self.column_type
    }

    pub fn get_index(&self) -> (i: usize)
        ensures
            i == self.spec_index(),
    {
        self.column_index
    }

    /// An equal copy of this column.
    pub fn duplicate(&self) -> (c: Column)
        ensures
            c == *self,
    {
        Column {
            name: self.name.clone(),
            column_type: self.column_type,
            column_index: self.column_index,
        }
    }
}

/// An equal copy of a column list.
pub fn duplicate_columns(columns: &Vec<Column>) -> (r: Vec<Column>)
    ensures
        r@ == columns@,
{
    let mut r: Vec<Column> = Vec::new();
    let mut i: usize = 0;
    while i < columns.len()
        invariant
            i <= columns@.len(),
            r@ == columns@.subrange(0, i as int),
        decreases columns@.len() - i,
    {
        r.push(columns[i].duplicate());
        proof {
            assert(r@ =~= columns@.subrange(0, i + 1));
        }
        i += 1;
    }
    proof {
        assert(r@ =~= columns@);
    }
    r
}

/// A result set: named, typed columns and the rows under them.
#[derive(Debug, Clone, PartialEq, Eq)]
pub struct DataFrame {
    pub columns: Vec<Column>,
    pub data: Vec<Row>,
}

impl DataFrame {
    pub open spec fn spec_columns(&self) -> Seq<Column> {
        self.columns@
    }

    pub open spec fn spec_rows(&self) -> Seq<Row> {
        self.data@
    }

    pub fn new(columns: Vec<Column>, data: Vec<Row>) -> (f: DataFrame)
        ensures
            f.spec_columns() == columns@,
            f.spec_rows() == data@,
    {
        DataFrame { columns, data }
    }

    pub fn get_columns(&self) -> (c: &Vec<Column>)
        ensures
            c@ == self.spec_columns(),
    {
        &self.columns
    }

    pub fn get_rows(&self) -> (r: &Vec<Row>)
        ensures
            r@ == self.spec_rows(),
    {
        &self.data
    }

    /// An empty frame: no columns, no rows.
    pub fn empty() -> (f: DataFrame)
        ensures
            f.spec_columns().len() == 0,
            f.spec_rows().len() == 0,
    {
        DataFrame { columns: Vec::new(), data: Vec::new() }
    }
}

} // verus!
