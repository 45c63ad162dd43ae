use cubestore::numbers::{parse_i64, u64_to_string};
use cubestore::table::{Column, ColumnType, TableValue};
use cubestore::typemap::{ColumnDecl, SqlDataType, clamp_decimal, convert_columns_type, map_type};
use cubestore::values::{
    CellPrep, SqlExpr, SqlValue, decode_byte, extract_data, float_input, parse_binary_string,
    parse_chunk, parse_decimal, parse_hyper_log_log,
};

fn s(text: &str) -> String {
    text.to_string()
}

/// The host-side preparation of a numeric cell: the IEEE-754 round-trip of
/// the string the library names.
fn prep_for(cell: &SqlExpr) -> CellPrep {
    let canon = float_input(cell).and_then(|t| t.parse::<f64>().ok().map(|v| v.to_string()));
    CellPrep { canon_decimal: canon, hll_ok: false }
}

fn one_column(t: ColumnType) -> Vec<Column> {
    vec![Column::new(s("c"), t, 0)]
}

fn extract(t: ColumnType, cell: SqlExpr) -> Result<TableValue, cubestore::error::CubeError> {
    let cols = one_column(t);
    let prep = prep_for(&cell);
    extract_data(&cell, &cols, 0, &prep)
}

#[test]
fn parse_i64_behaves_like_std() {
    for text in ["0", "153", "-153", "+42", "9223372036854775807", "-9223372036854775808",
        "9223372036854775808", "-9223372036854775809", "", "-", "12a", " 5", "1e3"] {
        assert_eq!(parse_i64(text), text.parse::<i64>().ok(), "on {:?}", text);
    }
}

#[test]
fn u64_strings() {
    assert_eq!(u64_to_string(0), "0");
    assert_eq!(u64_to_string(403), "403");
    assert_eq!(u64_to_string(18446744073709551615), "18446744073709551615");
}

#[test]
fn decimal_clamping() {
    // Defaults, the precision cap, the scale promotion, and the raise of
    // precision to the scale.
    assert_eq!(clamp_decimal(None, None), (18, 5));
    assert_eq!(clamp_decimal(Some(18), Some(2)), (18, 2));
    assert_eq!(clamp_decimal(Some(20), Some(7)), (18, 10));
    assert_eq!(clamp_decimal(Some(4), Some(8)), (10, 10));
    assert_eq!(clamp_decimal(Some(38), None), (18, 5));
}

#[test]
fn declared_types_map() {
    assert_eq!(map_type(&SqlDataType::Varchar).unwrap(), ColumnType::String);
    assert_eq!(map_type(&SqlDataType::Bytea).unwrap(), ColumnType::Bytes);
    assert_eq!(map_type(&SqlDataType::SmallInt).unwrap(), ColumnType::Int);
    assert_eq!(map_type(&SqlDataType::Real).unwrap(), ColumnType::Float);
    assert_eq!(map_type(&SqlDataType::Boolean).unwrap(), ColumnType::Boolean);
    assert_eq!(map_type(&SqlDataType::Timestamp).unwrap(), ColumnType::Timestamp);
    assert_eq!(
        map_type(&SqlDataType::Decimal { precision: Some(18), scale: Some(2) }).unwrap(),
        ColumnType::Decimal { precision: 18, scale: 2 }
    );
    assert_eq!(map_type(&SqlDataType::Custom(s("MEDIUMINT"))).unwrap(), ColumnType::Int);
    assert_eq!(map_type(&SqlDataType::Custom(s("varbinary"))).unwrap(), ColumnType::Bytes);
    assert_eq!(
        map_type(&SqlDataType::Custom(s("hyperloglog"))).unwrap(),
        ColumnType::HyperLogLog
    );
    assert_eq!(
        map_type(&SqlDataType::Custom(s("fancy"))).unwrap_err().get_message(),
        "Custom type 'fancy' is not supported"
    );
    assert_eq!(
        map_type(&SqlDataType::Regclass).unwrap_err().get_message(),
        "Type 'RegClass' is not suppored."
    );
}

#[test]
fn converted_columns_are_indexed_in_order() {
    let decls = vec![
        ColumnDecl { name: s("a"), data_type: SqlDataType::Int },
        ColumnDecl { name: s("b"), data_type: SqlDataType::Text },
    ];
    let cols = convert_columns_type(&decls).unwrap();
    assert_eq!(cols[0].get_index(), 0);
    assert_eq!(cols[1].get_index(), 1);
    assert_eq!(cols[0].get_column_type(), ColumnType::Int);
    assert_eq!(cols[1].get_column_type(), ColumnType::String);
}

#[test]
fn bytes() {
    // The three accepted byte literals: space-separated hex pairs, a hex
    // literal, and a bare number read as its own characters.
    let quoted = SqlValue::SingleQuotedString(s("01 ff 1a"));
    assert_eq!(parse_binary_string(&quoted).unwrap(), vec![0x01, 0xff, 0x1a]);
    let hex = SqlValue::HexStringLiteral(s("deADbeef"));
    assert_eq!(parse_binary_string(&hex).unwrap(), vec![0xde, 0xad, 0xbe, 0xef]);
    let number = SqlValue::Number(s("456"));
    assert_eq!(parse_binary_string(&number).unwrap(), "456".as_bytes().to_vec());
    // Empty tokens between separators are ignored; a bad token fails.
    let sparse = SqlValue::SingleQuotedString(s(" 01  ff "));
    assert_eq!(parse_binary_string(&sparse).unwrap(), vec![0x01, 0xff]);
    let bad = SqlValue::SingleQuotedString(s("01 f"));
    assert!(parse_binary_string(&bad).is_err());
}

#[test]
fn decode_byte_pairs() {
    assert_eq!(decode_byte("ff"), Some(0xff));
    assert_eq!(decode_byte("0A"), Some(0x0a));
    assert_eq!(decode_byte("f"), None);
    assert_eq!(decode_byte("fff"), None);
    assert_eq!(decode_byte("zz"), None);
}

#[test]
fn hyperloglog_inserts() {
    // An empty hex literal parses to no bytes; the sketch validator's
    // verdict gates acceptance. A literal with an odd digit count fails
    // before any validation.
    let empty = SqlValue::HexStringLiteral(s(""));
    assert!(parse_hyper_log_log(&empty, false).is_err());
    let sparse = SqlValue::HexStringLiteral(s("020C0200C02FF58941D5F0C6"));
    assert_eq!(parse_hyper_log_log(&sparse, true).unwrap().len(), 12);
    let trailing = SqlValue::HexStringLiteral(s("020C0200C02FF58941D5F0C6123"));
    assert!(parse_hyper_log_log(&trailing, true).is_err());
}

#[test]
fn int_cells() {
    assert_eq!(
        extract(ColumnType::Int, SqlExpr::Literal(SqlValue::Number(s("153")))).unwrap(),
        TableValue::Int(153)
    );
    assert_eq!(
        extract(ColumnType::Int, SqlExpr::Literal(SqlValue::SingleQuotedString(s("42"))))
            .unwrap(),
        TableValue::Int(42)
    );
    assert_eq!(
        extract(ColumnType::Int, SqlExpr::MinusNumber(s("153"))).unwrap(),
        TableValue::Int(-153)
    );
    assert!(extract(ColumnType::Int, SqlExpr::Literal(SqlValue::Number(s("1.5")))).is_err());
    assert_eq!(
        extract(ColumnType::Int, SqlExpr::Literal(SqlValue::Null)).unwrap(),
        TableValue::Null
    );
}

#[test]
fn boolean_cells() {
    assert_eq!(
        extract(ColumnType::Boolean, SqlExpr::Literal(SqlValue::Boolean(true))).unwrap(),
        TableValue::Boolean(true)
    );
    // The quoted form compares case-insensitively to "true".
    assert_eq!(
        extract(ColumnType::Boolean, SqlExpr::Literal(SqlValue::SingleQuotedString(s("TRUE"))))
            .unwrap(),
        TableValue::Boolean(true)
    );
    assert_eq!(
        extract(ColumnType::Boolean, SqlExpr::Literal(SqlValue::SingleQuotedString(s("no"))))
            .unwrap(),
        TableValue::Boolean(false)
    );
}

#[test]
fn decimal_cells_canonicalize() {
    // Each accepted literal is stored as the canonical decimal string of its
    // 64-bit float reading.
    for (text, stored) in [("-153", "-153"), ("20.01", "20.01"), ("20.30", "20.3"), (
        "120.30",
        "120.3",
    )] {
        let cell = if let Some(rest) = text.strip_prefix('-') {
            SqlExpr::MinusNumber(s(rest))
        } else {
            SqlExpr::Literal(SqlValue::Number(s(text)))
        };
        assert_eq!(
            extract(ColumnType::Decimal { precision: 18, scale: 5 }, cell).unwrap(),
            TableValue::Decimal(s(stored)),
            "on {:?}",
            text
        );
    }
}

#[test]
fn decimal_sum_of_seed_rows() {
    // The seed aggregation: -153, 20.01, 20.30, 120.30 and three NULLs sum
    // to 7.61 over the stored canonical forms.
    let cells = vec![
        SqlExpr::MinusNumber(s("153")),
        SqlExpr::Literal(SqlValue::Number(s("20.01"))),
        SqlExpr::Literal(SqlValue::Number(s("20.30"))),
        SqlExpr::Literal(SqlValue::Number(s("120.30"))),
        SqlExpr::Literal(SqlValue::Null),
        SqlExpr::Literal(SqlValue::Null),
        SqlExpr::Literal(SqlValue::Null),
    ];
    let mut sum = 0f64;
    for cell in cells {
        match extract(ColumnType::Decimal { precision: 18, scale: 5 }, cell).unwrap() {
            TableValue::Decimal(text) => sum += text.parse::<f64>().unwrap(),
            TableValue::Null => {},
            other => panic!("unexpected cell {:?}", other),
        }
    }
    assert_eq!(format!("{:.2}", sum), "7.61");
}

#[test]
fn float_decimal_scale() {
    // The seed float rows: their canonical forms sum to 7456503871042.786.
    let cells = vec![
        SqlExpr::Literal(SqlValue::Number(s("677863988852"))),
        SqlExpr::Literal(SqlValue::Number(s("677863988852.123e-10"))),
        SqlExpr::Literal(SqlValue::Number(s("6778639882.123e+3"))),
    ];
    let mut sum = 0f64;
    for cell in cells {
        match extract(ColumnType::Float, cell).unwrap() {
            TableValue::Float(text) => sum += text.parse::<f64>().unwrap(),
            other => panic!("unexpected cell {:?}", other),
        }
    }
    assert_eq!(sum.to_string(), "7456503871042.786");
}

#[test]
fn parse_decimal_rejects_odd_shapes() {
    let bad = SqlExpr::Literal(SqlValue::Boolean(true));
    let prep = prep_for(&bad);
    assert!(parse_decimal(&bad, &prep).is_err());
    let no_canon = SqlExpr::Literal(SqlValue::Number(s("not-a-number")));
    let prep = prep_for(&no_canon);
    assert!(parse_decimal(&no_canon, &prep).is_err());
}

#[test]
fn string_cells() {
    assert_eq!(
        extract(ColumnType::String, SqlExpr::Literal(SqlValue::SingleQuotedString(s("hi"))))
            .unwrap(),
        TableValue::String(s("hi"))
    );
    assert!(extract(ColumnType::String, SqlExpr::Literal(SqlValue::Number(s("1")))).is_err());
}

#[test]
fn chunk_rows_land_at_declared_positions() {
    let cols = vec![
        Column::new(s("a"), ColumnType::Int, 0),
        Column::new(s("b"), ColumnType::String, 1),
    ];
    // The insert names (b, a): the resolved columns come in that order, so
    // each parsed cell is stored at its declared position.
    let named = vec![cols[1].duplicate(), cols[0].duplicate()];
    let chunk = vec![vec![
        SqlExpr::Literal(SqlValue::SingleQuotedString(s("x"))),
        SqlExpr::Literal(SqlValue::Number(s("7"))),
    ]];
    let preps = vec![vec![CellPrep::none(), CellPrep::none()]];
    let frame = parse_chunk(&chunk, &named, &preps).unwrap();
    let row = frame.get_rows()[0].values();
    assert_eq!(row[0], TableValue::Int(7));
    assert_eq!(row[1], TableValue::String(s("x")));
}

#[test]
fn rejected_cells_name_the_offending_literal() {
    // The decimal message keeps the offending cell, per the stable message
    // contract; the other parsers name their literals too.
    let err = extract(
        ColumnType::Decimal { precision: 18, scale: 5 },
        SqlExpr::Literal(SqlValue::Boolean(true)),
    )
    .unwrap_err();
    assert_eq!(err.get_message(), "Can't parse decimal from, true");
    let err = extract(
        ColumnType::Decimal { precision: 18, scale: 5 },
        SqlExpr::Literal(SqlValue::Number(s("pear"))),
    )
    .unwrap_err();
    assert_eq!(err.get_message(), "Can't parse decimal from, pear");
    let err = extract(ColumnType::Int, SqlExpr::Literal(SqlValue::SingleQuotedString(s("x"))))
        .unwrap_err();
    assert_eq!(err.get_message(), "Can't parse int from, 'x'");
    let err = extract(ColumnType::String, SqlExpr::Literal(SqlValue::Number(s("1"))))
        .unwrap_err();
    assert_eq!(err.get_message(), "Single quoted string is expected but 1 found");
    let err = extract(
        ColumnType::Timestamp,
        SqlExpr::Literal(SqlValue::SingleQuotedString(s("nope"))),
    )
    .unwrap_err();
    assert_eq!(err.get_message(), "Can't parse timestamp from, 'nope'");
    let err = extract(ColumnType::Boolean, SqlExpr::Literal(SqlValue::Number(s("1"))))
        .unwrap_err();
    assert_eq!(err.get_message(), "Can't parse boolean from, 1");
    let err =
        parse_binary_string(&SqlValue::SingleQuotedString(s("01 f"))).unwrap_err();
    assert_eq!(err.get_message(), "cannot convert value to binary string: '01 f'");
    let err = parse_binary_string(&SqlValue::HexStringLiteral(s("abc"))).unwrap_err();
    assert_eq!(err.get_message(), "cannot convert value to binary string: X'abc'");
}

#[test]
fn first_failing_cell_reports_its_error() {
    // Two bad cells: the error of the first one, in row-major order, comes
    // back.
    let cols = vec![
        Column::new(s("a"), ColumnType::Int, 0),
        Column::new(s("b"), ColumnType::Boolean, 1),
    ];
    let chunk = vec![
        vec![
            SqlExpr::Literal(SqlValue::Number(s("7"))),
            SqlExpr::Literal(SqlValue::Number(s("1"))),
        ],
        vec![
            SqlExpr::Literal(SqlValue::Number(s("bad"))),
            SqlExpr::Literal(SqlValue::Number(s("2"))),
        ],
    ];
    let preps = vec![
        vec![CellPrep::none(), CellPrep::none()],
        vec![CellPrep::none(), CellPrep::none()],
    ];
    let err = parse_chunk(&chunk, &cols, &preps).unwrap_err();
    assert_eq!(err.get_message(), "Can't parse boolean from, 1");
}
