//! The value parser: literal expressions to typed cells per declared column
//! type.
//!
//! Two computations on a cell cannot be carried out here: the 64-bit float
//! round-trip that canonicalizes `Decimal` and `Float` literals, and the
//! validation of a `HyperLogLog` sketch by the cardinality library. Both are
//! taken as inputs (`CellPrep`), and every contract states the result for
//! every supplied outcome. `float_input` says exactly which string the host
//! must round-trip for a cell, so the preparation is mechanical.
use vstd::prelude::*;
use vstd::string::*;

use vstd::pervasive::VecAdditionalExecFns;

use crate::error::CubeError;
use crate::numbers::spec_parse_i64;
use crate::numbers::parse_i64;
use crate::table::CellView;
use crate::table::Column;
use crate::table::ColumnType;
use crate::table::DataFrame;
use crate::table::Row;
use crate::table::TableValue;
use crate::table::TimestampValue;

verus! {

/// A literal value in a parsed statement.
#[derive(Debug, Clone, PartialEq, Eq)]
pub enum SqlValue {
    Number(String),
    SingleQuotedString(String),
    HexStringLiteral(String),
    Boolean(bool),
    Null,
}

/// An expression in a `VALUES` row, reduced to the forms the value parser
/// distinguishes.
#[derive(Debug, Clone, PartialEq, Eq)]
pub enum SqlExpr {
    Literal(SqlValue),
    /// Unary minus over a number literal.
    MinusNumber(String),
    /// Unary minus over anything else.
    MinusOther,
    /// Any other expression form.
    Unsupported,
}

/// Host-computed facts about one cell: the canonical decimal string of its
/// numeric literal (the IEEE-754 round-trip of `float_input`), and whether
/// its bytes form a recognized HLL sketch.
#[derive(Debug, Clone, PartialEq, Eq)]
pub struct CellPrep {
    pub canon_decimal: Option<String>,
    pub hll_ok: bool,
}

impl CellPrep {
    /// The preparation for a cell that needs none.
    pub fn none() -> (p: CellPrep)
        ensures
            p.canon_decimal is None,
            !p.hll_ok,
    {
        CellPrep { canon_decimal: None, hll_ok: false }
    }
}

pub open spec fn is_hex_char(c: char) -> bool {
    ('0' <= c && c <= '9') || ('a' <= c && c <= 'f') || ('A' <= c && c <= 'F')
}

pub open spec fn hex_char_val(c: char) -> int {
    if 'a' <= c && c <= 'f' {
        c as int - 87
    } else if 'A' <= c && c <= 'F' {
        c as int - 55
    } else {
        c as int - 48
    }
}

pub open spec fn all_hex(s: Seq<char>) -> bool {
    forall|i: int| 0 <= i < s.len() ==> is_hex_char(#[trigger] s[i])
}

pub open spec fn hex_pair_val(h: char, l: char) -> u8 {
    (hex_char_val(h) * 16 + hex_char_val(l)) as u8
}

/// What a hex literal `X'…'` decodes to: pairs of hexadecimal digits, either
/// case; an odd count or any other character fails.
pub open spec fn spec_hex_decode(s: Seq<char>) -> Option<Seq<u8>> {
    if !all_hex(s) || s.len() % 2 != 0 {
        None
    } else {
        Some(Seq::new((s.len() / 2) as nat, |i: int| hex_pair_val(s[2 * i], s[2 * i + 1])))
    }
}

/// Relies on hex's `FromHex` impl for `Vec<u8>`: decodes pairs of
/// hexadecimal digits of either case, and fails on an odd count of digits or
/// on any byte that is not a hexadecimal digit.
#[verifier::external_body]
fn hex_decode(s: &str) -> (r: Option<Vec<u8>>)
    ensures
        r is Some <==> spec_hex_decode(s@) is Some,
        r matches Some(v) ==> spec_hex_decode(s@) == Some(v@),
{
    <Vec<u8> as hex::FromHex>::from_hex(s).ok()
}

/// What str::to_lowercase returns: a function of the characters alone.
pub uninterp spec fn lower_of(s: Seq<char>) -> Seq<char>;

/// Relies on str::to_lowercase: the Unicode lowercase mapping, which depends
/// on the characters alone (no locale).
#[verifier::external_body]
pub(crate) fn lowercase(s: &str) -> (r: String)
    ensures
        r@ == lower_of(s@),
{
    s.to_lowercase()
}

/// What chrono reads from an RFC 3339 date-and-time string: nanoseconds
/// since the Unix epoch, or nothing when the string does not parse or the
/// instant does not fit.
pub uninterp spec fn rfc3339_nanos(s: Seq<char>) -> Option<i64>;

/// Relies on chrono's `DateTime::parse_from_rfc3339` and
/// `timestamp_nanos_opt`: the offset comes from the string itself, so the
/// result depends on the characters alone.
#[verifier::external_body]
pub(crate) fn parse_rfc3339_nanos(s: &str) -> (r: Option<i64>)
    ensures
        r == rfc3339_nanos(s@),
{
    match chrono::DateTime::parse_from_rfc3339(s) {
        Ok(dt) => dt.timestamp_nanos_opt(),
        Err(_) => None,
    }
}

/// What chrono reads from an offset-less ISO-8601 string with a `T`
/// separator, taken as UTC: nanoseconds since the Unix epoch, or nothing.
pub uninterp spec fn naive_t_nanos(s: Seq<char>) -> Option<i64>;

/// Relies on chrono's `NaiveDateTime::parse_from_str` (with the fixed
/// `%Y-%m-%dT%H:%M:%S%.f` format) and `timestamp_nanos_opt`: both depend on
/// the characters alone, and the naive instant is read as UTC.
#[verifier::external_body]
pub(crate) fn parse_naive_t_nanos(s: &str) -> (r: Option<i64>)
    ensures
        r == naive_t_nanos(s@),
{
    match chrono::NaiveDateTime::parse_from_str(s, "%Y-%m-%dT%H:%M:%S%.f") {
        Ok(dt) => dt.and_utc().timestamp_nanos_opt(),
        Err(_) => None,
    }
}

/// What chrono reads from an offset-less ISO-8601 string with a space
/// separator, taken as UTC: nanoseconds since the Unix epoch, or nothing.
pub uninterp spec fn naive_space_nanos(s: Seq<char>) -> Option<i64>;

/// Relies on chrono's `NaiveDateTime::parse_from_str` (with the fixed
/// `%Y-%m-%d %H:%M:%S%.f` format) and `timestamp_nanos_opt`: both depend on
/// the characters alone, and the naive instant is read as UTC.
#[verifier::external_body]
pub(crate) fn parse_naive_space_nanos(s: &str) -> (r: Option<i64>)
    ensures
        r == naive_space_nanos(s@),
{
    match chrono::NaiveDateTime::parse_from_str(s, "%Y-%m-%d %H:%M:%S%.f") {
        Ok(dt) => dt.and_utc().timestamp_nanos_opt(),
        Err(_) => None,
    }
}

/// What a timestamp literal reads as: an RFC 3339 instant, or an offset-less
/// ISO-8601 instant (with `T` or space) taken as UTC.
pub open spec fn spec_timestamp_nanos(s: Seq<char>) -> Option<i64> {
    if rfc3339_nanos(s) is Some {
        rfc3339_nanos(s)
    } else if naive_t_nanos(s) is Some {
        naive_t_nanos(s)
    } else {
        naive_space_nanos(s)
    }
}

/// Read a timestamp literal as nanoseconds since the Unix epoch, trying the
/// RFC 3339 form first and the two offset-less ISO-8601 forms (as UTC) after
/// it.
pub fn parse_timestamp_nanos(s: &str) -> (r: Option<i64>)
    ensures
        r == spec_timestamp_nanos(s@),
{
    if let Some(n) = parse_rfc3339_nanos(s) {
        return Some(n);
    }
    if let Some(n) = parse_naive_t_nanos(s) {
        return Some(n);
    }
    parse_naive_space_nanos(s)
}

/// A literal as it reads in an error message.
pub open spec fn spec_value_text(v: SqlValue) -> Seq<char> {
    match v {
        SqlValue::Number(s) => s@,
        SqlValue::SingleQuotedString(s) => "'"@ + s@ + "'"@,
        SqlValue::HexStringLiteral(s) => "X'"@ + s@ + "'"@,
        SqlValue::Boolean(b) => if b {
            "true"@
        } else {
            "false"@
        },
        SqlValue::Null => "NULL"@,
    }
}

/// An expression as it reads in an error message.
pub open spec fn spec_expr_text(cell: SqlExpr) -> Seq<char> {
    match cell {
        SqlExpr::Literal(v) => spec_value_text(v),
        SqlExpr::MinusNumber(s) => "-"@ + s@,
        SqlExpr::MinusOther => "-(unsupported expression)"@,
        SqlExpr::Unsupported => "(unsupported expression)"@,
    }
}

/// Render a literal for an error message.
pub fn value_text(v: &SqlValue) -> (r: String)
    ensures
        r@ == spec_value_text(*v),
{
    match v {
        SqlValue::Number(s) => s.clone(),
        SqlValue::SingleQuotedString(s) => {
            let r = String::from_str("'").concat(s.as_str()).concat("'");
            proof {
                assert(r@ =~= spec_value_text(*v));
            }
            r
        },
        SqlValue::HexStringLiteral(s) => {
            let r = String::from_str("X'").concat(s.as_str()).concat("'");
            proof {
                assert(r@ =~= spec_value_text(*v));
            }
            r
        },
        SqlValue::Boolean(b) => if *b {
            String::from_str("true")
        } else {
            String::from_str("false")
        },
        SqlValue::Null => String::from_str("NULL"),
    }
}

/// Render an expression for an error message.
pub fn expr_text(cell: &SqlExpr) -> (r: String)
    ensures
        r@ == spec_expr_text(*cell),
{
    match cell {
        SqlExpr::Literal(v) => value_text(v),
        SqlExpr::MinusNumber(s) => {
            let r = String::from_str("-").concat(s.as_str());
            proof {
                assert(r@ =~= spec_expr_text(*cell));
            }
            r
        },
        SqlExpr::MinusOther => String::from_str("-(unsupported expression)"),
        SqlExpr::Unsupported => String::from_str("(unsupported expression)"),
    }
}

/// What a two-character hex token decodes to.
pub open spec fn spec_decode_byte(s: Seq<char>) -> Option<u8> {
    if s.len() == 2 && is_hex_char(s[0]) && is_hex_char(s[1]) {
        Some(hex_pair_val(s[0], s[1]))
    } else {
        None
    }
}

fn hex_char_value(c: char) -> (r: Option<u8>)
    ensures
        r is Some <==> is_hex_char(c),
        r matches Some(v) ==> v == hex_char_val(c),
{
    let u = c as u32;
    if c >= '0' && c <= '9' {
        Some((u - 48) as u8)
    } else if c >= 'a' && c <= 'f' {
        Some((u - 87) as u8)
    } else if c >= 'A' && c <= 'F' {
        Some((u - 55) as u8)
    } else {
        None
    }
}

/// Decode one two-character hexadecimal token into a byte.
pub fn decode_byte(s: &str) -> (r: Option<u8>)
    ensures
        r == spec_decode_byte(s@),
{
    let n = s.unicode_len();
    if n != 2 {
        return None;
    }
    let h = match hex_char_value(s.get_char(0)) {
        Some(v) => v,
        None => {
            return None;
        },
    };
    let l = match hex_char_value(s.get_char(1)) {
        Some(v) => v,
        None => {
            return None;
        },
    };
    Some(h * 16 + l)
}

/// What a single-quoted string read as space-separated two-character hex
/// tokens decodes to; empty tokens are ignored, any other token fails.
pub open spec fn spec_hex_tokens(s: Seq<char>) -> Option<Seq<u8>>
    decreases s.len(),
{
    if s.len() == 0 {
        Some(Seq::empty())
    } else if s[0] == ' ' {
        spec_hex_tokens(s.skip(1))
    } else if s.len() >= 2 && is_hex_char(s[0]) && is_hex_char(s[1]) && (s.len() == 2 || s[2]
        == ' ') {
        match spec_hex_tokens(s.skip(2)) {
            Some(rest) => Some(seq![hex_pair_val(s[0], s[1])] + rest),
            None => None,
        }
    } else {
        None
    }
}

/// Decode a single-quoted string of space-separated hex byte tokens.
#[verifier::loop_isolation(false)]
fn parse_hex_tokens(s: &str) -> (r: Option<Vec<u8>>)
    ensures
        r is Some <==> spec_hex_tokens(s@) is Some,
        r matches Some(v) ==> spec_hex_tokens(s@) == Some(v@),
{
    let n = s.unicode_len();
    let mut res: Vec<u8> = Vec::new();
    let mut i: usize = 0;
    proof {
        assert(s@.skip(0) =~= s@);
        if spec_hex_tokens(s@) is Some {
            let rest = spec_hex_tokens(s@)->0;
            assert(Seq::<u8>::empty() + rest =~= rest);
        }
    }
    while i < n
        invariant
            i <= n,
            spec_hex_tokens(s@) == (match spec_hex_tokens(s@.skip(i as int)) {
                Some(rest) => Some(res@ + rest),
                None => None::<Seq<u8>>,
            }),
        decreases n - i,
    {
        let c = s.get_char(i);
        if c == ' ' {
            proof {
                assert(s@.skip(i as int).skip(1) =~= s@.skip(i + 1));
            }
            i += 1;
        } else {
            if i + 1 >= n {
                return None;
            }
            let c1 = s.get_char(i + 1);
            let h = match hex_char_value(c) {
                Some(v) => v,
                None => {
                    return None;
                },
            };
            let l = match hex_char_value(c1) {
                Some(v) => v,
                None => {
                    return None;
                },
            };
            if i + 2 < n {
                let c2 = s.get_char(i + 2);
                if c2 != ' ' {
                    return None;
                }
            }
            let b = h * 16 + l;
            proof {
                assert(s@.skip(i as int).skip(2) =~= s@.skip(i + 2));
                let tail = s@.skip(i as int);
                assert(tail[0] == s@[i as int] && tail[1] == s@[i + 1]);
                assert(b == hex_pair_val(tail[0], tail[1]));
                if spec_hex_tokens(s@.skip(i + 2)) is Some {
                    let rest = spec_hex_tokens(s@.skip(i + 2))->0;
                    assert((res@ + seq![b]) + rest =~= res@ + (seq![b] + rest));
                }
            }
            res.push(b);
            i += 2;
        }
    }
    proof {
        assert(s@.skip(n as int) =~= Seq::<char>::empty());
        assert(res@ + Seq::<u8>::empty() =~= res@);
    }
    Some(res)
}

/// What a literal decodes to when read as binary data: a number literal's
/// own bytes, a quoted string's space-separated hex tokens, or a hex
/// literal's digits.
pub open spec fn spec_parse_binary(v: SqlValue) -> Option<Seq<u8>> {
    match v {
        SqlValue::Number(s) => Some(vstd::utf8::encode_utf8(s@)),
        SqlValue::SingleQuotedString(s) => spec_hex_tokens(s@),
        SqlValue::HexStringLiteral(s) => spec_hex_decode(s@),
        _ => None,
    }
}

/// The message a literal that does not read as binary data fails with.
pub open spec fn spec_binary_error(v: SqlValue) -> Seq<char> {
    "cannot convert value to binary string: "@ + spec_value_text(v)
}

/// Read a literal as binary data, as `spec_parse_binary` describes; a
/// rejected literal is a user error naming it.
pub fn parse_binary_string(v: &SqlValue) -> (r: Result<Vec<u8>, CubeError>)
    ensures
        r is Ok <==> spec_parse_binary(*v) is Some,
        r matches Ok(b) ==> spec_parse_binary(*v) == Some(b@),
        r matches Err(e) ==> e.message@ == spec_binary_error(*v),
{
    match v {
        SqlValue::Number(s) => Ok(s.as_str().as_bytes_vec()),
        SqlValue::SingleQuotedString(s) => match parse_hex_tokens(s.as_str()) {
            Some(b) => Ok(b),
            None => Err(CubeError::user(binary_error_text(v))),
        },
        SqlValue::HexStringLiteral(s) => match hex_decode(s.as_str()) {
            Some(b) => Ok(b),
            None => Err(CubeError::user(binary_error_text(v))),
        },
        _ => Err(CubeError::user(binary_error_text(v))),
    }
}

/// The error message of a literal that does not read as binary data.
fn binary_error_text(v: &SqlValue) -> (r: String)
    ensures
        r@ == spec_binary_error(*v),
{
    String::from_str("cannot convert value to binary string: ").concat(value_text(v).as_str())
}

/// Read a literal as an HLL sketch: binary data whose validation verdict is
/// `hll_ok`.
pub fn parse_hyper_log_log(v: &SqlValue, hll_ok: bool) -> (r: Result<Vec<u8>, CubeError>)
    ensures
        r is Ok <==> (spec_parse_binary(*v) is Some && hll_ok),
        r matches Ok(b) ==> spec_parse_binary(*v) == Some(b@),
        r matches Err(e) ==> e.message@ == (if spec_parse_binary(*v) is Some {
            "invalid HLL sketch"@
        } else {
            spec_binary_error(*v)
        }),
{
    let bytes = parse_binary_string(v)?;
    if !hll_ok {
        return Err(CubeError::user(String::from_str("invalid HLL sketch")));
    }
    Ok(bytes)
}

/// The expression forms a `Decimal` or `Float` column accepts.
pub open spec fn decimal_shape_ok(cell: SqlExpr) -> bool {
    ||| cell matches SqlExpr::Literal(SqlValue::Number(_))
    ||| cell matches SqlExpr::Literal(SqlValue::SingleQuotedString(_))
    ||| cell matches SqlExpr::MinusNumber(_)
}

/// The string whose IEEE-754 round-trip canonicalizes this cell: the number
/// or quoted literal itself, with a leading minus for a negated number.
pub open spec fn spec_float_input(cell: SqlExpr) -> Option<Seq<char>> {
    match cell {
        SqlExpr::Literal(SqlValue::Number(s)) => Some(s@),
        SqlExpr::Literal(SqlValue::SingleQuotedString(s)) => Some(s@),
        SqlExpr::MinusNumber(s) => Some("-"@ + s@),
        _ => None,
    }
}

/// The string the host must round-trip through a 64-bit float to prepare a
/// `Decimal` or `Float` cell; `None` for shapes those columns reject.
pub fn float_input(cell: &SqlExpr) -> (r: Option<String>)
    ensures
        r is Some <==> spec_float_input(*cell) is Some,
        r matches Some(t) ==> spec_float_input(*cell) == Some(t@),
{
    match cell {
        SqlExpr::Literal(SqlValue::Number(s)) => Some(s.clone()),
        SqlExpr::Literal(SqlValue::SingleQuotedString(s)) => Some(s.clone()),
        SqlExpr::MinusNumber(s) => Some(String::from_str("-").concat(s.as_str())),
        _ => None,
    }
}

/// Read a cell as a canonical decimal string: the cell must have an accepted
/// shape and the host-supplied round-trip must have succeeded. A rejected
/// cell is a user error preserving the offending literal.
pub fn parse_decimal(cell: &SqlExpr, prep: &CellPrep) -> (r: Result<String, CubeError>)
    ensures
        r is Ok <==> (decimal_shape_ok(*cell) && prep.canon_decimal is Some),
        r matches Ok(t) ==> prep.canon_decimal == Some(t),
        r matches Err(e) ==> e.message@ == "Can't parse decimal from, "@ + spec_expr_text(*cell),
{
    let shape_ok = match cell {
        SqlExpr::Literal(SqlValue::Number(_)) => true,
        SqlExpr::Literal(SqlValue::SingleQuotedString(_)) => true,
        SqlExpr::MinusNumber(_) => true,
        _ => false,
    };
    if !shape_ok {
        return Err(CubeError::user(decimal_error_text(cell)));
    }
    match &prep.canon_decimal {
        Some(t) => Ok(t.clone()),
        None => Err(CubeError::user(decimal_error_text(cell))),
    }
}

/// The error message of a cell that does not read as a decimal.
fn decimal_error_text(cell: &SqlExpr) -> (r: String)
    ensures
        r@ == "Can't parse decimal from, "@ + spec_expr_text(*cell),
{
    String::from_str("Can't parse decimal from, ").concat(expr_text(cell).as_str())
}

/// The signed integer a cell yields for an `Int` column.
pub open spec fn spec_extract_int(cell: SqlExpr) -> Option<i64> {
    match cell {
        SqlExpr::Literal(SqlValue::Number(s)) => spec_parse_i64(s@),
        SqlExpr::Literal(SqlValue::SingleQuotedString(s)) => spec_parse_i64(s@),
        SqlExpr::MinusNumber(s) => match spec_parse_i64(s@) {
            Some(v) => if v == i64::MIN {
                None
            } else {
                Some((-(v as int)) as i64)
            },
            None => None,
        },
        _ => None,
    }
}

/// The typed cell an expression yields under a declared column type, given
/// the host-computed preparation; `None` is a user error.
pub open spec fn spec_extract(cell: SqlExpr, ct: ColumnType, prep: CellPrep) -> Option<CellView> {
    if cell matches SqlExpr::Literal(SqlValue::Null) {
        Some(CellView::Null)
    } else {
        match ct {
            ColumnType::String => match cell {
                SqlExpr::Literal(SqlValue::SingleQuotedString(s)) => Some(CellView::Str(s@)),
                _ => None,
            },
            ColumnType::Int => match spec_extract_int(cell) {
                Some(v) => Some(CellView::Int(v as int)),
                None => None,
            },
            ColumnType::Decimal { .. } => if decimal_shape_ok(cell) {
                match prep.canon_decimal {
                    Some(t) => Some(CellView::Decimal(t@)),
                    None => None,
                }
            } else {
                None
            },
            ColumnType::Float => if decimal_shape_ok(cell) {
                match prep.canon_decimal {
                    Some(t) => Some(CellView::Float(t@)),
                    None => None,
                }
            } else {
                None
            },
            ColumnType::Bytes => match cell {
                SqlExpr::Literal(v) => match spec_parse_binary(v) {
                    Some(b) => Some(CellView::Bytes(b)),
                    None => None,
                },
                _ => None,
            },
            ColumnType::HyperLogLog => match cell {
                SqlExpr::Literal(v) => match spec_parse_binary(v) {
                    Some(b) => if prep.hll_ok {
                        Some(CellView::Bytes(b))
                    } else {
                        None
                    },
                    None => None,
                },
                _ => None,
            },
            ColumnType::Timestamp => match cell {
                SqlExpr::Literal(SqlValue::SingleQuotedString(s)) => match spec_timestamp_nanos(
                    s@,
                ) {
                    Some(n) => Some(CellView::Timestamp(n as int)),
                    None => None,
                },
                _ => None,
            },
            ColumnType::Boolean => match cell {
                SqlExpr::Literal(SqlValue::SingleQuotedString(s)) => Some(
                    CellView::Boolean(lower_of(s@) == "true"@),
                ),
                SqlExpr::Literal(SqlValue::Boolean(b)) => Some(CellView::Boolean(b)),
                _ => None,
            },
        }
    }
}

/// The message a rejected cell fails with under a declared column type; the
/// offending literal is preserved in it.
pub open spec fn spec_extract_err(cell: SqlExpr, ct: ColumnType) -> Seq<char> {
    match ct {
        ColumnType::String => "Single quoted string is expected but "@ + spec_expr_text(cell)
            + " found"@,
        ColumnType::Int => "Can't parse int from, "@ + spec_expr_text(cell),
        ColumnType::Decimal { .. } => "Can't parse decimal from, "@ + spec_expr_text(cell),
        ColumnType::Float => "Can't parse decimal from, "@ + spec_expr_text(cell),
        ColumnType::Bytes => match cell {
            SqlExpr::Literal(v) => spec_binary_error(v),
            _ => "Corrupted data in query."@,
        },
        ColumnType::HyperLogLog => match cell {
            SqlExpr::Literal(v) => if spec_parse_binary(v) is Some {
                "invalid HLL sketch"@
            } else {
                spec_binary_error(v)
            },
            _ => "Corrupted data in query."@,
        },
        ColumnType::Timestamp => "Can't parse timestamp from, "@ + spec_expr_text(cell),
        ColumnType::Boolean => "Can't parse boolean from, "@ + spec_expr_text(cell),
    }
}

/// Convert one expression into the typed cell for column `i`, as
/// `spec_extract` describes; any rejected form is a user error whose message
/// `spec_extract_err` fixes, the offending literal preserved.
pub fn extract_data(cell: &SqlExpr, columns: &Vec<Column>, i: usize, prep: &CellPrep) -> (r:
    Result<TableValue, CubeError>)
    requires
        i < columns@.len(),
    ensures
        r matches Ok(v) ==> spec_extract(*cell, columns@[i as int].spec_type(), *prep) == Some(
            v@,
        ),
        r is Err ==> spec_extract(*cell, columns@[i as int].spec_type(), *prep) is None,
        r matches Err(e) ==> e.message@ == spec_extract_err(
            *cell,
            columns@[i as int].spec_type(),
        ),
{
    if let SqlExpr::Literal(SqlValue::Null) = cell {
        return Ok(TableValue::Null);
    }
    let column = &columns[i];
    match column.get_column_type() {
        ColumnType::String => match cell {
            SqlExpr::Literal(SqlValue::SingleQuotedString(s)) => Ok(
                TableValue::String(s.clone()),
            ),
            _ => Err(
                CubeError::user(
                    String::from_str("Single quoted string is expected but ").concat(
                        expr_text(cell).as_str(),
                    ).concat(" found"),
                ),
            ),
        },
        ColumnType::Int => {
            let parsed: Option<i64> = match cell {
                SqlExpr::Literal(SqlValue::Number(s)) => parse_i64(s.as_str()),
                SqlExpr::Literal(SqlValue::SingleQuotedString(s)) => parse_i64(s.as_str()),
                SqlExpr::MinusNumber(s) => match parse_i64(s.as_str()) {
                    Some(v) => if v == i64::MIN {
                        None
                    } else {
                        Some(-v)
                    },
                    None => None,
                },
                _ => None,
            };
            match parsed {
                Some(v) => Ok(TableValue::Int(v)),
                None => Err(
                    CubeError::user(
                        String::from_str("Can't parse int from, ").concat(
                            expr_text(cell).as_str(),
                        ),
                    ),
                ),
            }
        },
        ColumnType::Decimal { .. } => {
            let t = parse_decimal(cell, prep)?;
            Ok(TableValue::Decimal(t))
        },
        ColumnType::Float => {
            let t = parse_decimal(cell, prep)?;
            Ok(TableValue::Float(t))
        },
        ColumnType::Bytes => match cell {
            SqlExpr::Literal(v) => {
                let b = parse_binary_string(v)?;
                Ok(TableValue::Bytes(b))
            },
            _ => Err(CubeError::user(String::from_str("Corrupted data in query."))),
        },
        ColumnType::HyperLogLog => match cell {
            SqlExpr::Literal(v) => {
                let b = parse_hyper_log_log(v, prep.hll_ok)?;
                Ok(TableValue::Bytes(b))
            },
            _ => Err(CubeError::user(String::from_str("Corrupted data in query."))),
        },
        ColumnType::Timestamp => match cell {
            SqlExpr::Literal(SqlValue::SingleQuotedString(s)) => match parse_timestamp_nanos(
                s.as_str(),
            ) {
                Some(n) => Ok(TableValue::Timestamp(TimestampValue::new(n))),
                None => Err(
                    CubeError::user(
                        String::from_str("Can't parse timestamp from, ").concat(
                            expr_text(cell).as_str(),
                        ),
                    ),
                ),
            },
            _ => Err(
                CubeError::user(
                    String::from_str("Can't parse timestamp from, ").concat(
                        expr_text(cell).as_str(),
                    ),
                ),
            ),
        },
        ColumnType::Boolean => match cell {
            SqlExpr::Literal(SqlValue::SingleQuotedString(s)) => {
                let low = lowercase(s.as_str());
                Ok(TableValue::Boolean(low == String::from_str("true")))
            },
            SqlExpr::Literal(SqlValue::Boolean(b)) => Ok(TableValue::Boolean(*b)),
            _ => Err(
                CubeError::user(
                    String::from_str("Can't parse boolean from, ").concat(
                        expr_text(cell).as_str(),
                    ),
                ),
            ),
        },
    }
}

/// Whether every cell of a `VALUES` row parses under the named columns.
pub open spec fn row_parses(r: Seq<SqlExpr>, cols: Seq<Column>, preps: Seq<CellPrep>) -> bool {
    forall|i: int|
        0 <= i < r.len() ==> spec_extract(r[i], cols[i].spec_type(), #[trigger] preps[i]) is Some
}

/// The cells of a stored row after placing the first `k` parsed cells, each
/// at its column's declared position; unwritten positions hold `Int(0)`.
pub open spec fn spec_fill_row(r: Seq<SqlExpr>, cols: Seq<Column>, preps: Seq<CellPrep>, k: int)
    -> Seq<CellView>
    decreases k,
{
    if k <= 0 {
        Seq::new(cols.len(), |j: int| CellView::Int(0))
    } else {
        spec_fill_row(r, cols, preps, k - 1).update(
            cols[k - 1].spec_index() as int,
            spec_extract(r[k - 1], cols[k - 1].spec_type(), preps[k - 1])->0,
        )
    }
}

/// Cell `i` of row `j` is the first rejected cell, in row-major order, of
/// the rows in positions `start..end`.
pub open spec fn first_rejected_cell(
    data: Seq<Vec<SqlExpr>>,
    preps: Seq<Vec<CellPrep>>,
    cols: Seq<Column>,
    start: int,
    end: int,
    j: int,
    i: int,
) -> bool {
    &&& start <= j < end
    &&& 0 <= i < data[j]@.len()
    &&& (forall|j2: int| start <= j2 < j ==> row_parses((#[trigger] data[j2])@, cols, preps[j2]@))
    &&& (forall|i2: int|
        0 <= i2 < i ==> spec_extract(
            data[j]@[i2],
            cols[i2].spec_type(),
            #[trigger] preps[j]@[i2],
        ) is Some)
    &&& spec_extract(data[j]@[i], cols[i].spec_type(), preps[j]@[i]) is None
}

/// Parse the `VALUES` rows in positions `start..end` into a data frame over
/// the named columns. Each cell lands at its column's declared position, so
/// the order of columns in an `INSERT` may differ from the declaration
/// order. A rejected cell fails the whole call with the first such cell's
/// error, in row-major order.
#[verifier::loop_isolation(false)]
pub fn parse_rows(
    data: &Vec<Vec<SqlExpr>>,
    preps: &Vec<Vec<CellPrep>>,
    columns: &Vec<Column>,
    start: usize,
    end: usize,
) -> (r: Result<DataFrame, CubeError>)
    requires
        start <= end <= data@.len(),
        preps@.len() == data@.len(),
        forall|j: int| 0 <= j < data@.len() ==> (#[trigger] preps@[j])@.len() == data@[j]@.len(),
        forall|j: int| 0 <= j < data@.len() ==> (#[trigger] data@[j])@.len() <= columns@.len(),
        forall|j: int|
            0 <= j < columns@.len() ==> (#[trigger] columns@[j]).spec_index() < columns@.len(),
    ensures
        r is Ok <==> (forall|j: int|
            start <= j < end ==> row_parses((#[trigger] data@[j])@, columns@, preps@[j]@)),
        r matches Err(e) ==> exists|j: int, i: int|
            #[trigger] first_rejected_cell(data@, preps@, columns@, start as int, end as int, j, i)
                && e.message@ == spec_extract_err(data@[j]@[i], columns@[i].spec_type()),
        r matches Ok(df) ==> {
            &&& df.spec_columns() == columns@
            &&& df.spec_rows().len() == end - start
            &&& forall|j: int|
                start <= j < end ==> (#[trigger] df.spec_rows()[j - start]).view_cells()
                    == spec_fill_row(
                    data@[j]@,
                    columns@,
                    preps@[j]@,
                    data@[j]@.len() as int,
                )
        },
{
    let n_cols = columns.len();
    let mut res: Vec<Row> = Vec::new();
    let mut j: usize = start;
    while j < end
        invariant
            start <= j <= end,
            res@.len() == j - start,
            forall|t: int|
                start <= t < j ==> row_parses((#[trigger] data@[t])@, columns@, preps@[t]@),
            forall|t: int|
                start <= t < j ==> (#[trigger] res@[t - start]).view_cells() == spec_fill_row(
                    data@[t]@,
                    columns@,
                    preps@[t]@,
                    data@[t]@.len() as int,
                ),
        decreases end - j,
    {
        let r = &data[j];
        let row_preps = &preps[j];
        let mut row: Vec<TableValue> = Vec::new();
        let mut p: usize = 0;
        while p < n_cols
            invariant
                p <= n_cols,
                row@.len() == p,
                forall|t: int| 0 <= t < p ==> (#[trigger] row@[t])@ == CellView::Int(0),
            decreases n_cols - p,
        {
            row.push(TableValue::Int(0));
            p += 1;
        }
        proof {
            assert(row@.map_values(|v: TableValue| v@) =~= Seq::new(
                columns@.len(),
                |q: int| CellView::Int(0),
            ));
        }
        let mut i: usize = 0;
        while i < r.len()
            invariant
                i <= r@.len(),
                row@.len() == columns@.len(),
                forall|t: int|
                    0 <= t < i ==> spec_extract(
                        (#[trigger] r@[t]),
                        columns@[t].spec_type(),
                        row_preps@[t],
                    ) is Some,
                row@.map_values(|v: TableValue| v@) == spec_fill_row(
                    r@,
                    columns@,
                    row_preps@,
                    i as int,
                ),
            decreases r@.len() - i,
        {
            let v = match extract_data(&r[i], columns, i, &row_preps[i]) {
                Ok(v) => v,
                Err(e) => {
                    proof {
                        assert(!row_parses(r@, columns@, row_preps@));
                        assert(first_rejected_cell(
                            data@,
                            preps@,
                            columns@,
                            start as int,
                            end as int,
                            j as int,
                            i as int,
                        ));
                    }
                    return Err(e);
                },
            };
            let idx = columns[i].get_index();
            row.set(idx, v);
            proof {
                assert(row@.map_values(|v: TableValue| v@) =~= spec_fill_row(
                    r@,
                    columns@,
                    row_preps@,
                    i + 1,
                ));
            }
            i += 1;
        }
        res.push(Row::new(row));
        j += 1;
    }
    Ok(DataFrame::new(crate::table::duplicate_columns(columns), res))
}

/// Parse one whole chunk of `VALUES` rows into a data frame over the named
/// columns; a rejected cell fails the call with the first such cell's error,
/// in row-major order.
pub fn parse_chunk(chunk: &Vec<Vec<SqlExpr>>, columns: &Vec<Column>, preps: &Vec<Vec<CellPrep>>)
    -> (r: Result<DataFrame, CubeError>)
    requires
        preps@.len() == chunk@.len(),
        forall|j: int| 0 <= j < chunk@.len() ==> (#[trigger] preps@[j])@.len() == chunk@[j]@.len(),
        forall|j: int| 0 <= j < chunk@.len() ==> (#[trigger] chunk@[j])@.len() <= columns@.len(),
        forall|j: int|
            0 <= j < columns@.len() ==> (#[trigger] columns@[j]).spec_index() < columns@.len(),
    ensures
        r is Ok <==> (forall|j: int|
            0 <= j < chunk@.len() ==> row_parses((#[trigger] chunk@[j])@, columns@, preps@[j]@)),
        r matches Err(e) ==> exists|j: int, i: int|
            #[trigger] first_rejected_cell(
                chunk@,
                preps@,
                columns@,
                0,
                chunk@.len() as int,
                j,
                i,
            ) && e.message@ == spec_extract_err(chunk@[j]@[i], columns@[i].spec_type()),
        r matches Ok(df) ==> {
            &&& df.spec_columns() == columns@
            &&& df.spec_rows().len() == chunk@.len()
            &&& forall|j: int|
                0 <= j < chunk@.len() ==> (#[trigger] df.spec_rows()[j]).view_cells()
                    == spec_fill_row(
                    chunk@[j]@,
                    columns@,
                    preps@[j]@,
                    chunk@[j]@.len() as int,
                )
        },
{
    let r = parse_rows(chunk, preps, columns, 0, chunk.len());
    proof {
        match &r {
            Ok(df) => {
                assert forall|j: int|
                    0 <= j < chunk@.len() implies (#[trigger] df.spec_rows()[j]).view_cells()
                    == spec_fill_row(
                    chunk@[j]@,
                    columns@,
                    preps@[j]@,
                    chunk@[j]@.len() as int,
                ) by {
                    assert(df.spec_rows()[j - 0].view_cells() == spec_fill_row(
                        chunk@[j]@,
                        columns@,
                        preps@[j]@,
                        chunk@[j]@.len() as int,
                    ));
                }
            },
            Err(_) => {},
        }
    }
    r
}

} // verus!
