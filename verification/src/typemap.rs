//! Mapping of declared SQL column types to the internal column types,
//! including the precision/scale clamp applied to `DECIMAL(p, s)`.
use vstd::prelude::*;
use vstd::string::*;

use crate::error::CubeError;
use crate::table::{Column, ColumnType};
use crate::values::{lower_of, lowercase};

verus! {

/// Effective precision and scale for a declared `DECIMAL(p, s)`:
/// precision defaults to 18 and is capped at 18; scale defaults to 5 and is
/// promoted to 10 when above 5; precision is raised to the scale when the
/// scale exceeds it.
pub open spec fn spec_clamp_decimal(precision: Option<u64>, scale: Option<u64>) -> (u64, u64) {
    let p0 = if precision is Some { precision->0 } else { 18u64 };
    let s0 = if scale is Some { scale->0 } else { 5u64 };
    let p1 = if p0 > 18 { 18u64 } else { p0 };
    let s1 = if s0 > 5 { 10u64 } else { s0 };
    let p2 = if s1 > p1 { s1 } else { p1 };
    (p2, s1)
}

/// Clamp a declared decimal precision and scale to their effective values.
pub fn clamp_decimal(precision: Option<u64>, scale: Option<u64>) -> (r: (u64, u64))
    ensures
        r == spec_clamp_decimal(precision, scale),
{
    let mut p: u64 = match precision {
        Some(v) => v,
        None => 18,
    };
    let mut s: u64 = match scale {
        Some(v) => v,
        None => 5,
    };
    if p > 18 {
        p = 18;
    }
    if s > 5 {
        s = 10;
    }
    if s > p {
        p = s;
    }
    (p, s)
}

/// The clamp always yields an effective precision of at most 18, a scale that
/// is either the declared one or 10, and a precision no smaller than the
/// scale.
pub proof fn lemma_decimal_clamp_bounds(precision: Option<u64>, scale: Option<u64>)
    ensures
        spec_clamp_decimal(precision, scale).0 <= 18,
        spec_clamp_decimal(precision, scale).1 == (if scale is Some {
            scale->0
        } else {
            5u64
        }) || spec_clamp_decimal(precision, scale).1 == 10,
        spec_clamp_decimal(precision, scale).0 >= spec_clamp_decimal(precision, scale).1,
{
}

/// A declared SQL column type, as the statement parser surfaces it.
#[derive(Debug, Clone, PartialEq, Eq)]
pub enum SqlDataType {
    Date,
    Time,
    Char,
    Varchar,
    Clob,
    Text,
    Uuid,
    Binary,
    Varbinary,
    Blob,
    Bytea,
    Array,
    Decimal { precision: Option<u64>, scale: Option<u64> },
    SmallInt,
    Int,
    BigInt,
    Interval,
    Boolean,
    Float,
    Real,
    Double,
    Timestamp,
    Custom(String),
    Regclass,
}

/// A column declaration in a `CREATE TABLE` statement.
#[derive(Debug, Clone, PartialEq, Eq)]
pub struct ColumnDecl {
    pub name: String,
    pub data_type: SqlDataType,
}

/// The internal column type a declared SQL type maps to; `None` is a user
/// error. Custom type names are compared after lowercasing.
pub open spec fn spec_map_type(dt: SqlDataType) -> Option<ColumnType> {
    match dt {
        SqlDataType::Date
        | SqlDataType::Time
        | SqlDataType::Char
        | SqlDataType::Varchar
        | SqlDataType::Clob
        | SqlDataType::Text => Some(ColumnType::String),
        SqlDataType::Uuid
        | SqlDataType::Binary
        | SqlDataType::Varbinary
        | SqlDataType::Blob
        | SqlDataType::Bytea
        | SqlDataType::Array => Some(ColumnType::Bytes),
        SqlDataType::Decimal { precision, scale } => Some(
            ColumnType::Decimal {
                precision: spec_clamp_decimal(precision, scale).0,
                scale: spec_clamp_decimal(precision, scale).1,
            },
        ),
        SqlDataType::SmallInt | SqlDataType::Int | SqlDataType::BigInt | SqlDataType::Interval
            => Some(ColumnType::Int),
        SqlDataType::Boolean => Some(ColumnType::Boolean),
        SqlDataType::Float | SqlDataType::Real | SqlDataType::Double => Some(ColumnType::Float),
        SqlDataType::Timestamp => Some(ColumnType::Timestamp),
        SqlDataType::Custom(s) => if lower_of(s@) == "mediumint"@ {
            Some(ColumnType::Int)
        } else if lower_of(s@) == "varbinary"@ {
            Some(ColumnType::Bytes)
        } else if lower_of(s@) == "hyperloglog"@ {
            Some(ColumnType::HyperLogLog)
        } else {
            None
        },
        SqlDataType::Regclass => None,
    }
}

/// The user error message for a declared type that maps to nothing.
pub open spec fn spec_type_error(dt: SqlDataType) -> Seq<char> {
    match dt {
        SqlDataType::Custom(s) => "Custom type '"@ + s@ + "' is not supported"@,
        _ => "Type 'RegClass' is not suppored."@,
    }
}

/// Map one declared type to its internal column type.
pub fn map_type(dt: &SqlDataType) -> (r: Result<ColumnType, CubeError>)
    ensures
        r matches Ok(t) ==> spec_map_type(*dt) == Some(t),
        r matches Err(e) ==> spec_map_type(*dt) is None && e.message@ == spec_type_error(*dt),
{
    match dt {
        SqlDataType::Date
        | SqlDataType::Time
        | SqlDataType::Char
        | SqlDataType::Varchar
        | SqlDataType::Clob
        | SqlDataType::Text => Ok(ColumnType::String),
        SqlDataType::Uuid
        | SqlDataType::Binary
        | SqlDataType::Varbinary
        | SqlDataType::Blob
        | SqlDataType::Bytea
        | SqlDataType::Array => Ok(ColumnType::Bytes),
        SqlDataType::Decimal { precision, scale } => {
            let (p, s) = clamp_decimal(*precision, *scale);
            Ok(ColumnType::Decimal { precision: p, scale: s })
        },
        SqlDataType::SmallInt | SqlDataType::Int | SqlDataType::BigInt | SqlDataType::Interval
            => Ok(ColumnType::Int),
        SqlDataType::Boolean => Ok(ColumnType::Boolean),
        SqlDataType::Float | SqlDataType::Real | SqlDataType::Double => Ok(ColumnType::Float),
        SqlDataType::Timestamp => Ok(ColumnType::Timestamp),
        SqlDataType::Custom(s) => {
            let low = lowercase(s.as_str());
            if low == String::from_str("mediumint") {
                Ok(ColumnType::Int)
            } else if low == String::from_str("varbinary") {
                Ok(ColumnType::Bytes)
            } else if low == String::from_str("hyperloglog") {
                Ok(ColumnType::HyperLogLog)
            } else {
                Err(
                    CubeError::user(
                        String::from_str("Custom type '").concat(s.as_str()).concat(
                            "' is not supported",
                        ),
                    ),
                )
            }
        },
        SqlDataType::Regclass => Err(
            CubeError::user(String::from_str("Type 'RegClass' is not suppored.")),
        ),
    }
}

/// Whether every declared column's type maps to an internal type.
pub open spec fn decls_map(columns: Seq<ColumnDecl>) -> bool {
    forall|i: int| 0 <= i < columns.len() ==> spec_map_type((#[trigger] columns[i]).data_type) is Some
}

/// Convert column declarations into table columns: each keeps its name, maps
/// its type, and is indexed by declaration order.
#[verifier::loop_isolation(false)]
pub fn convert_columns_type(columns: &Vec<ColumnDecl>) -> (r: Result<Vec<Column>, CubeError>)
    ensures
        r is Ok <==> decls_map(columns@),
        r matches Ok(cols) ==> {
            &&& cols@.len() == columns@.len()
            &&& forall|i: int|
                0 <= i < columns@.len() ==> {
                    &&& (#[trigger] cols@[i]).spec_name() == columns@[i].name@
                    &&& Some(cols@[i].spec_type()) == spec_map_type(columns@[i].data_type)
                    &&& cols@[i].spec_index() == i
                }
        },
        r matches Err(e) ==> exists|i: int|
            0 <= i < columns@.len() && spec_map_type((#[trigger] columns@[i]).data_type) is None
                && e.message@ == spec_type_error(columns@[i].data_type),
{
    let mut cols: Vec<Column> = Vec::new();
    let mut i: usize = 0;
    while i < columns.len()
        invariant
            i <= columns@.len(),
            cols@.len() == i,
            forall|t: int|
                0 <= t < i ==> {
                    &&& (#[trigger] cols@[t]).spec_name() == columns@[t].name@
                    &&& Some(cols@[t].spec_type()) == spec_map_type(columns@[t].data_type)
                    &&& cols@[t].spec_index() == t
                },
        decreases columns@.len() - i,
    {
        let decl = &columns[i];
        let t = match map_type(&decl.data_type) {
            Ok(t) => t,
            Err(e) => {
                return Err(e);
            },
        };
        cols.push(Column::new(decl.name.clone(), t, i));
        i += 1;
    }
    proof {
        assert forall|t: int|
            0 <= t < columns@.len() implies spec_map_type(
            (#[trigger] columns@[t]).data_type,
        ) is Some by {
            assert(Some(cols@[t].spec_type()) == spec_map_type(columns@[t].data_type));
        }
    }
    Ok(cols)
}

} // verus!
