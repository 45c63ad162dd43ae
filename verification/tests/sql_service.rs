use cubestore::error::CubeError;
use cubestore::jobs::{JobEvent, JobResultListener, JobType, RowKey, TableId, first_error};
use cubestore::service::{ExecOutcome, SqlServiceImpl, finish_create_table};
use cubestore::statement::{
    CreateIndexStatement, IndexColumn, InsertSource, ObjectType, Statement,
};
use cubestore::table::{TableValue, TimestampValue};
use cubestore::typemap::{ColumnDecl, SqlDataType};
use cubestore::values::{CellPrep, SqlExpr, SqlValue};

fn s(text: &str) -> String {
    text.to_string()
}

fn decl(name: &str, t: SqlDataType) -> ColumnDecl {
    ColumnDecl { name: s(name), data_type: t }
}

fn lit_num(text: &str) -> SqlExpr {
    SqlExpr::Literal(SqlValue::Number(s(text)))
}

fn lit_str(text: &str) -> SqlExpr {
    SqlExpr::Literal(SqlValue::SingleQuotedString(s(text)))
}

fn no_prep() -> CellPrep {
    CellPrep::none()
}

fn preps_for(data: &Vec<Vec<SqlExpr>>) -> Vec<Vec<CellPrep>> {
    data.iter().map(|row| row.iter().map(|_| no_prep()).collect()).collect()
}

fn exec(
    service: &mut SqlServiceImpl,
    stmt: &Statement,
    q: &str,
) -> Result<ExecOutcome, CubeError> {
    let preps: Vec<Vec<CellPrep>> = match stmt {
        Statement::Insert { source: InsertSource::Values(data), .. } => preps_for(data),
        _ => Vec::new(),
    };
    service.exec_statement(stmt, q, &preps)
}

fn create_schema_stmt(name: &str, if_not_exists: bool) -> Statement {
    Statement::CreateSchema { schema_name: s(name), if_not_exists }
}

fn create_table_stmt(schema: &str, table: &str, columns: Vec<ColumnDecl>) -> Statement {
    Statement::CreateTable {
        name: vec![s(schema), s(table)],
        columns,
        external: false,
        location: None,
        indexes: Vec::new(),
    }
}

fn insert_stmt(schema: &str, table: &str, cols: Vec<&str>, data: Vec<Vec<SqlExpr>>) -> Statement {
    Statement::Insert {
        table_name: vec![s(schema), s(table)],
        columns: cols.into_iter().map(s).collect(),
        source: InsertSource::Values(data),
    }
}

fn frame_of(outcome: ExecOutcome) -> cubestore::table::DataFrame {
    match outcome {
        ExecOutcome::Frame(f) => f,
        other => panic!("expected a frame, got {:?}", other),
    }
}

fn success_events(p: &cubestore::service::PendingInsert) -> Vec<JobEvent> {
    p.wal_ids
        .iter()
        .map(|id| JobEvent::Success(RowKey::Table(TableId::WALs, *id), JobType::WalPartitioning))
        .collect()
}

fn run_insert(service: &mut SqlServiceImpl, stmt: &Statement, q: &str) -> u64 {
    match exec(service, stmt, q).unwrap() {
        ExecOutcome::Pending(p) => {
            let events = success_events(&p);
            service.finish_insert(&p, &events).unwrap()
        },
        other => panic!("expected a pending insert, got {:?}", other),
    }
}

#[test]
fn create_schema_test() {
    let mut service = SqlServiceImpl::new(10);
    let f = frame_of(exec(&mut service, &create_schema_stmt("foo", false), "CREATE SCHEMA foo").unwrap());
    assert_eq!(
        f.get_rows()[0].values(),
        &vec![TableValue::Int(1), TableValue::String(s("foo"))]
    );
}

#[test]
fn create_schema_if_not_exists() {
    let mut service = SqlServiceImpl::new(10);
    exec(&mut service, &create_schema_stmt("Foo", true), "CREATE SCHEMA IF NOT EXISTS Foo").unwrap();
    exec(&mut service, &create_schema_stmt("Foo", true), "CREATE SCHEMA IF NOT EXISTS Foo").unwrap();
    let err = exec(&mut service, &create_schema_stmt("Foo", false), "CREATE SCHEMA Foo")
        .unwrap_err();
    assert_eq!(err.get_message(), "Schema Foo already exists");
}

#[test]
fn insert() {
    // Columns declared (PersonID, LastName, FirstName, Address, City); the
    // insert names them in a different order, and each cell still lands at
    // its declared position.
    let mut service = SqlServiceImpl::new(10);
    exec(&mut service, &create_schema_stmt("Foo", false), "CREATE SCHEMA Foo").unwrap();
    let cols = vec![
        decl("PersonID", SqlDataType::Int),
        decl("LastName", SqlDataType::Varchar),
        decl("FirstName", SqlDataType::Varchar),
        decl("Address", SqlDataType::Varchar),
        decl("City", SqlDataType::Varchar),
    ];
    exec(&mut service, &create_table_stmt("Foo", "Persons", cols), "CREATE TABLE Foo.Persons")
        .unwrap();
    let stmt = insert_stmt(
        "Foo",
        "Persons",
        vec!["LastName", "PersonID", "FirstName", "Address", "City"],
        vec![vec![lit_str("L"), lit_num("23"), lit_str("F"), lit_str("A"), lit_str("C")]],
    );
    let count = run_insert(&mut service, &stmt, "INSERT INTO Foo.Persons ...");
    assert_eq!(count, 1);
    let table = &service.store.tables[0];
    let row = table.rows[0].values();
    assert_eq!(row[0], TableValue::Int(23));
    assert_eq!(row[1], TableValue::String(s("L")));
    assert_eq!(row[2], TableValue::String(s("F")));
    assert_eq!(row[3], TableValue::String(s("A")));
    assert_eq!(row[4], TableValue::String(s("C")));
}

#[test]
fn negative_numbers() {
    let mut service = SqlServiceImpl::new(10);
    exec(&mut service, &create_schema_stmt("foo", false), "CREATE SCHEMA foo").unwrap();
    let cols = vec![decl("int_value", SqlDataType::Int)];
    exec(&mut service, &create_table_stmt("foo", "values", cols), "CREATE TABLE foo.values")
        .unwrap();
    let stmt = insert_stmt(
        "foo",
        "values",
        vec!["int_value"],
        vec![vec![SqlExpr::MinusNumber(s("153"))]],
    );
    run_insert(&mut service, &stmt, "INSERT INTO foo.values (int_value) VALUES (-153)");
    assert_eq!(service.store.tables[0].rows[0].values()[0], TableValue::Int(-153));
}

#[test]
fn custom_types() {
    let mut service = SqlServiceImpl::new(10);
    exec(&mut service, &create_schema_stmt("foo", false), "CREATE SCHEMA foo").unwrap();
    let cols = vec![decl("int_value", SqlDataType::Custom(s("mediumint")))];
    exec(&mut service, &create_table_stmt("foo", "values", cols), "CREATE TABLE foo.values")
        .unwrap();
    let stmt = insert_stmt(
        "foo",
        "values",
        vec!["int_value"],
        vec![vec![SqlExpr::MinusNumber(s("153"))]],
    );
    run_insert(&mut service, &stmt, "INSERT INTO foo.values (int_value) VALUES (-153)");
    assert_eq!(service.store.tables[0].rows[0].values()[0], TableValue::Int(-153));
}

#[test]
fn insert_row_count_over_chunks() {
    // Twenty rows with a chunk size of seven: three WAL chunks, the row
    // count reported is twenty, and exactly twenty rows land in the table.
    let mut service = SqlServiceImpl::new(7);
    exec(&mut service, &create_schema_stmt("foo", false), "CREATE SCHEMA foo").unwrap();
    let cols = vec![decl("num", SqlDataType::Int)];
    exec(&mut service, &create_table_stmt("foo", "numbers", cols), "CREATE TABLE foo.numbers")
        .unwrap();
    let data: Vec<Vec<SqlExpr>> = (0..20).map(|i| vec![lit_num(&format!("{}", i))]).collect();
    let stmt = insert_stmt("foo", "numbers", vec!["num"], data);
    match exec(&mut service, &stmt, "INSERT INTO foo.numbers ...").unwrap() {
        ExecOutcome::Pending(p) => {
            assert_eq!(p.row_count, 20);
            assert_eq!(p.wal_ids.len(), 3);
            assert_eq!(service.store.wals.len(), 3);
            let events = success_events(&p);
            let count = service.finish_insert(&p, &events).unwrap();
            assert_eq!(count, 20);
            assert_eq!(service.store.tables[0].rows.len(), 20);
            assert_eq!(service.store.wals.len(), 0);
            assert_eq!(service.store.partitions.len(), 3);
        },
        other => panic!("expected a pending insert, got {:?}", other),
    }
}

#[test]
fn insert_job_error_is_reported() {
    let mut service = SqlServiceImpl::new(10);
    exec(&mut service, &create_schema_stmt("foo", false), "CREATE SCHEMA foo").unwrap();
    let cols = vec![decl("num", SqlDataType::Int)];
    exec(&mut service, &create_table_stmt("foo", "numbers", cols), "CREATE TABLE foo.numbers")
        .unwrap();
    let stmt = insert_stmt("foo", "numbers", vec!["num"], vec![vec![lit_num("1")]]);
    match exec(&mut service, &stmt, "INSERT INTO foo.numbers (num) VALUES (1)").unwrap() {
        ExecOutcome::Pending(p) => {
            let events = vec![JobEvent::Error(
                RowKey::Table(TableId::WALs, p.wal_ids[0]),
                JobType::WalPartitioning,
                s("partition worker down"),
            )];
            let err = service.finish_insert(&p, &events).unwrap_err();
            assert_eq!(err.get_message(), "Insert job failed: partition worker down");
        },
        other => panic!("expected a pending insert, got {:?}", other),
    }
}

#[test]
fn missing_column_message() {
    let mut service = SqlServiceImpl::new(10);
    exec(&mut service, &create_schema_stmt("Foo", false), "CREATE SCHEMA Foo").unwrap();
    let cols = vec![decl("PersonID", SqlDataType::Int)];
    exec(&mut service, &create_table_stmt("Foo", "Persons", cols), "CREATE TABLE Foo.Persons")
        .unwrap();
    let stmt = insert_stmt("Foo", "Persons", vec!["Nick"], vec![vec![lit_num("1")]]);
    let err = exec(&mut service, &stmt, "INSERT ...").unwrap_err();
    assert_eq!(
        err.get_message(),
        "Column Nick does noot present in table Foo.Persons."
    );
}

#[test]
fn unqualified_names_are_rejected() {
    let mut service = SqlServiceImpl::new(10);
    let ct = Statement::CreateTable {
        name: vec![s("Persons")],
        columns: vec![decl("PersonID", SqlDataType::Int)],
        external: false,
        location: None,
        indexes: Vec::new(),
    };
    let err = exec(&mut service, &ct, "CREATE TABLE Persons (PersonID int)").unwrap_err();
    assert_eq!(
        err.get_message(),
        "Schema's name should be present in table name but found: Persons"
    );

    let ci = Statement::CreateIndex(CreateIndexStatement {
        name: s("by_id"),
        table_name: vec![s("Persons")],
        columns: vec![IndexColumn::Ident(s("PersonID"))],
    });
    let err = exec(&mut service, &ci, "CREATE INDEX by_id ON Persons (PersonID)").unwrap_err();
    assert_eq!(
        err.get_message(),
        "Schema's name should be present in table name but found: Persons"
    );

    let ins = insert_stmt_one_part();
    let err = exec(&mut service, &ins, "INSERT INTO Persons (PersonID) VALUES (1)").unwrap_err();
    assert_eq!(
        err.get_message(),
        "Schema's name should be present in query (boo.table1). Your query was 'INSERT INTO Persons (PersonID) VALUES (1)'"
    );
}

fn insert_stmt_one_part() -> Statement {
    Statement::Insert {
        table_name: vec![s("Persons")],
        columns: vec![s("PersonID")],
        source: InsertSource::Values(vec![vec![SqlExpr::Literal(SqlValue::Number(s("1")))]]),
    }
}

#[test]
fn create_index_before_ingestion() {
    let mut service = SqlServiceImpl::new(10);
    exec(&mut service, &create_schema_stmt("foo", false), "CREATE SCHEMA foo").unwrap();
    let cols = vec![decl("id", SqlDataType::Int), decl("t", SqlDataType::Timestamp)];
    exec(&mut service, &create_table_stmt("foo", "timestamps", cols), "CREATE TABLE")
        .unwrap();
    let ci = Statement::CreateIndex(CreateIndexStatement {
        name: s("by_timestamp"),
        table_name: vec![s("foo"), s("timestamps")],
        columns: vec![IndexColumn::Ident(s("t"))],
    });
    exec(&mut service, &ci, "CREATE INDEX by_timestamp ON foo.timestamps (`t`)").unwrap();

    let stmt = insert_stmt(
        "foo",
        "timestamps",
        vec!["id", "t"],
        vec![vec![lit_num("1"), lit_str("2020-01-01T00:00:00.000Z")]],
    );
    run_insert(&mut service, &stmt, "INSERT INTO foo.timestamps ...");

    // The table has received data now, so another index is refused.
    let again = Statement::CreateIndex(CreateIndexStatement {
        name: s("by_id"),
        table_name: vec![s("foo"), s("timestamps")],
        columns: vec![IndexColumn::Ident(s("id"))],
    });
    let err = exec(&mut service, &again, "CREATE INDEX by_id ON foo.timestamps (id)").unwrap_err();
    assert!(err.get_message().contains("has data"));
}

#[test]
fn drop_schema_and_table() {
    let mut service = SqlServiceImpl::new(10);
    exec(&mut service, &create_schema_stmt("foo", false), "CREATE SCHEMA foo").unwrap();
    let cols = vec![decl("num", SqlDataType::Int)];
    exec(&mut service, &create_table_stmt("foo", "numbers", cols), "CREATE TABLE").unwrap();

    let drop_table = Statement::Drop {
        object_type: ObjectType::Table,
        names: vec![vec![s("foo"), s("numbers")]],
    };
    exec(&mut service, &drop_table, "DROP TABLE foo.numbers").unwrap();
    assert!(service.store.tables.is_empty());

    let drop_schema = Statement::Drop { object_type: ObjectType::Schema, names: vec![vec![s("foo")]] };
    exec(&mut service, &drop_schema, "DROP SCHEMA foo").unwrap();
    assert!(service.store.schemas.is_empty());

    let err = exec(
        &mut service,
        &Statement::Drop { object_type: ObjectType::Other, names: vec![vec![s("x")]] },
        "DROP INDEX x",
    )
    .unwrap_err();
    assert_eq!(err.get_message(), "Unsupported drop operation");
}

#[test]
fn drop_schema_cascades() {
    let mut service = SqlServiceImpl::new(10);
    exec(&mut service, &create_schema_stmt("foo", false), "CREATE SCHEMA foo").unwrap();
    let cols = vec![decl("num", SqlDataType::Int)];
    exec(&mut service, &create_table_stmt("foo", "numbers", cols), "CREATE TABLE").unwrap();
    let stmt = insert_stmt("foo", "numbers", vec!["num"], vec![vec![lit_num("1")]]);
    match exec(&mut service, &stmt, "INSERT").unwrap() {
        ExecOutcome::Pending(_) => {},
        other => panic!("expected a pending insert, got {:?}", other),
    }
    assert_eq!(service.store.wals.len(), 1);
    let drop_schema = Statement::Drop { object_type: ObjectType::Schema, names: vec![vec![s("foo")]] };
    exec(&mut service, &drop_schema, "DROP SCHEMA foo").unwrap();
    assert!(service.store.schemas.is_empty());
    assert!(service.store.tables.is_empty());
    assert!(service.store.wals.is_empty());
}

#[test]
fn show_and_set_variables() {
    let mut service = SqlServiceImpl::new(10);
    exec(&mut service, &create_schema_stmt("foo", false), "CREATE SCHEMA foo").unwrap();
    let cols = vec![decl("num", SqlDataType::Int)];
    exec(&mut service, &create_table_stmt("foo", "numbers", cols), "CREATE TABLE").unwrap();

    let show = Statement::ShowVariable { variable: s("SCHEMAS") };
    let f = frame_of(exec(&mut service, &show, "SHOW SCHEMAS").unwrap());
    assert_eq!(f.get_rows().len(), 1);
    assert_eq!(
        f.get_rows()[0].values(),
        &vec![TableValue::Int(1), TableValue::String(s("foo"))]
    );

    let show_tables = Statement::ShowVariable { variable: s("tables") };
    let f = frame_of(exec(&mut service, &show_tables, "SHOW tables").unwrap());
    assert_eq!(f.get_rows().len(), 1);

    let unknown = Statement::ShowVariable { variable: s("Gizmos") };
    let err = exec(&mut service, &unknown, "SHOW Gizmos").unwrap_err();
    assert_eq!(err.get_message(), "Unknown SHOW: gizmos");

    let f = frame_of(exec(&mut service, &Statement::SetVariable, "SET x = 1").unwrap());
    assert!(f.get_rows().is_empty());

    let err = exec(&mut service, &Statement::Other, "FLUSH TABLES").unwrap_err();
    assert_eq!(err.get_message(), "Unsupported SQL: 'FLUSH TABLES'");

    match exec(&mut service, &Statement::Query, "SELECT 1").unwrap() {
        ExecOutcome::Delegated => {},
        other => panic!("a query goes to the planner, got {:?}", other),
    }
}

#[test]
fn create_table_with_location() {
    let mut service = SqlServiceImpl::new(10);
    exec(&mut service, &create_schema_stmt("Foo", true), "CREATE SCHEMA IF NOT EXISTS Foo")
        .unwrap();
    let ct = Statement::CreateTable {
        name: vec![s("Foo"), s("Persons")],
        columns: vec![decl("id", SqlDataType::Int), decl("city", SqlDataType::Text)],
        external: true,
        location: Some(s("temp/foo.csv")),
        indexes: vec![CreateIndexStatement {
            name: s("persons_city"),
            table_name: vec![s("Foo"), s("Persons")],
            columns: vec![IndexColumn::Ident(s("city")), IndexColumn::Ident(s("id"))],
        }],
    };
    match exec(&mut service, &ct, "CREATE TABLE Foo.Persons ... LOCATION 'temp/foo.csv'").unwrap() {
        ExecOutcome::PendingImport { table_id, frame } => {
            assert_eq!(table_id, 1);
            // The import succeeded: the frame passes through.
            let events = vec![JobEvent::Success(
                RowKey::Table(TableId::Tables, table_id),
                JobType::TableImport,
            )];
            let f = finish_create_table(frame, &events).unwrap();
            assert_eq!(
                f.get_rows()[0].values(),
                &vec![TableValue::Int(1), TableValue::String(s("Persons"))]
            );
        },
        other => panic!("an external table awaits its import, got {:?}", other),
    }
    // The embedded index exists, and the imported table counts as having
    // data, so a later index is refused.
    assert_eq!(service.store.indexes.len(), 1);
    let ci = Statement::CreateIndex(CreateIndexStatement {
        name: s("by_city"),
        table_name: vec![s("Foo"), s("Persons")],
        columns: vec![IndexColumn::Ident(s("city"))],
    });
    let err = exec(&mut service, &ci, "CREATE INDEX by_city ON Foo.Persons (city)").unwrap_err();
    assert!(err.get_message().contains("has data"));
}

#[test]
fn create_table_failed_event() {
    let events = vec![JobEvent::Error(
        RowKey::Table(TableId::Tables, 1),
        JobType::TableImport,
        s("no such file"),
    )];
    let frame = cubestore::table::DataFrame::empty();
    let err = finish_create_table(frame, &events).unwrap_err();
    assert_eq!(err.get_message(), "Create table failed: no such file");
}

#[test]
fn job_result_listener_matches_pairs() {
    let wanted = vec![
        (RowKey::Table(TableId::WALs, 1), JobType::WalPartitioning),
        (RowKey::Table(TableId::WALs, 2), JobType::WalPartitioning),
    ];
    let mut listener = JobResultListener::subscribe(wanted);
    assert!(!listener.done());
    // An unrelated event is not consumed.
    let stray = JobEvent::Success(RowKey::Table(TableId::Partitions, 9), JobType::Repartition);
    assert!(!listener.offer(&stray));
    // Events arrive out of order and are kept in arrival order.
    let second = JobEvent::Success(RowKey::Table(TableId::WALs, 2), JobType::WalPartitioning);
    let first = JobEvent::Error(
        RowKey::Table(TableId::WALs, 1),
        JobType::WalPartitioning,
        s("boom"),
    );
    assert!(listener.offer(&second));
    assert!(listener.offer(&first));
    assert!(listener.done());
    assert_eq!(listener.received.len(), 2);
    assert_eq!(first_error(&listener.received), Some(s("boom")));
}

#[test]
fn timestamp_cells() {
    // The instant from the seed data: 2020-01-02T00:00:00Z in nanoseconds.
    let mut service = SqlServiceImpl::new(10);
    exec(&mut service, &create_schema_stmt("foo", false), "CREATE SCHEMA foo").unwrap();
    let cols = vec![decl("t", SqlDataType::Timestamp)];
    exec(&mut service, &create_table_stmt("foo", "timestamps", cols), "CREATE TABLE").unwrap();
    let stmt = insert_stmt(
        "foo",
        "timestamps",
        vec!["t"],
        vec![vec![lit_str("2020-01-02T00:00:00.000Z")]],
    );
    run_insert(&mut service, &stmt, "INSERT");
    assert_eq!(
        service.store.tables[0].rows[0].values()[0],
        TableValue::Timestamp(TimestampValue::new(1577923200000000000))
    );
}

#[test]
fn missing_schema_and_table_messages() {
    let mut service = SqlServiceImpl::new(10);
    let ins = insert_stmt("foo", "numbers", vec!["num"], vec![vec![lit_num("1")]]);
    let err = exec(&mut service, &ins, "INSERT").unwrap_err();
    assert_eq!(err.get_message(), "Schema foo does not exist");

    exec(&mut service, &create_schema_stmt("foo", false), "CREATE SCHEMA foo").unwrap();
    let err = exec(&mut service, &ins, "INSERT").unwrap_err();
    assert_eq!(err.get_message(), "Table foo.numbers does not exist");

    let drop_schema = Statement::Drop {
        object_type: ObjectType::Schema,
        names: vec![vec![s("bar")]],
    };
    let err = exec(&mut service, &drop_schema, "DROP SCHEMA bar").unwrap_err();
    assert_eq!(err.get_message(), "Schema bar does not exist");

    let cols = vec![decl("num", SqlDataType::Int)];
    exec(&mut service, &create_table_stmt("foo", "numbers", cols), "CREATE TABLE").unwrap();
    let dup = create_table_stmt("foo", "numbers", vec![decl("num", SqlDataType::Int)]);
    let err = exec(&mut service, &dup, "CREATE TABLE foo.numbers (num int)").unwrap_err();
    assert_eq!(err.get_message(), "Table foo.numbers already exists");
}

#[test]
fn insert_without_values_body() {
    let mut service = SqlServiceImpl::new(10);
    let stmt = Statement::Insert {
        table_name: vec![s("foo"), s("numbers")],
        columns: vec![s("num")],
        source: InsertSource::Other,
    };
    let err = exec(&mut service, &stmt, "INSERT INTO foo.numbers SELECT 1").unwrap_err();
    assert_eq!(
        err.get_message(),
        "Data should be present in query. Your query was 'INSERT INTO foo.numbers SELECT 1'"
    );
}

#[test]
fn index_columns_must_be_identifiers() {
    let mut service = SqlServiceImpl::new(10);
    exec(&mut service, &create_schema_stmt("foo", false), "CREATE SCHEMA foo").unwrap();
    let cols = vec![decl("num", SqlDataType::Int)];
    exec(&mut service, &create_table_stmt("foo", "numbers", cols), "CREATE TABLE").unwrap();
    let ci = Statement::CreateIndex(CreateIndexStatement {
        name: s("by_expr"),
        table_name: vec![s("foo"), s("numbers")],
        columns: vec![IndexColumn::Other(s("num + 1"))],
    });
    let err = exec(&mut service, &ci, "CREATE INDEX by_expr ON foo.numbers (num + 1)").unwrap_err();
    assert_eq!(err.get_message(), "Unsupported column expression in index");
}

#[test]
fn internal_create_table_ignores_location() {
    // An internal table (no EXTERNAL) stores neither the statement's
    // location nor an import format, does not count as having data, and so
    // still accepts indexes.
    let mut service = SqlServiceImpl::new(10);
    exec(&mut service, &create_schema_stmt("foo", false), "CREATE SCHEMA foo").unwrap();
    let ct = Statement::CreateTable {
        name: vec![s("foo"), s("numbers")],
        columns: vec![decl("num", SqlDataType::Int)],
        external: false,
        location: Some(s("temp/ignored.csv")),
        indexes: Vec::new(),
    };
    let f = frame_of(exec(&mut service, &ct, "CREATE TABLE foo.numbers (num int)").unwrap());
    assert_eq!(f.get_rows().len(), 1);
    let t = &service.store.tables[0];
    assert_eq!(t.location, None);
    assert_eq!(t.import_format, None);
    assert!(!t.has_data);
    let ci = Statement::CreateIndex(CreateIndexStatement {
        name: s("by_num"),
        table_name: vec![s("foo"), s("numbers")],
        columns: vec![IndexColumn::Ident(s("num"))],
    });
    exec(&mut service, &ci, "CREATE INDEX by_num ON foo.numbers (num)").unwrap();
}

#[test]
fn timestamp_accepts_iso_8601_without_offset() {
    // The RFC 3339 form, and the offset-less ISO-8601 forms with a `T` or a
    // space, all read as the same UTC instant.
    let mut service = SqlServiceImpl::new(10);
    exec(&mut service, &create_schema_stmt("foo", false), "CREATE SCHEMA foo").unwrap();
    let cols = vec![decl("t", SqlDataType::Timestamp)];
    exec(&mut service, &create_table_stmt("foo", "timestamps", cols), "CREATE TABLE").unwrap();
    let stmt = insert_stmt(
        "foo",
        "timestamps",
        vec!["t"],
        vec![
            vec![lit_str("2020-01-02T00:00:00.000Z")],
            vec![lit_str("2020-01-02T00:00:00")],
            vec![lit_str("2020-01-02 00:00:00")],
        ],
    );
    run_insert(&mut service, &stmt, "INSERT");
    for row in &service.store.tables[0].rows {
        assert_eq!(
            row.values()[0],
            TableValue::Timestamp(TimestampValue::new(1577923200000000000))
        );
    }
}

#[test]
fn drop_table_names_what_is_missing() {
    let mut service = SqlServiceImpl::new(10);
    let drop = Statement::Drop {
        object_type: ObjectType::Table,
        names: vec![vec![s("foo"), s("numbers")]],
    };
    let err = exec(&mut service, &drop, "DROP TABLE foo.numbers").unwrap_err();
    assert_eq!(err.get_message(), "Schema foo does not exist");
    exec(&mut service, &create_schema_stmt("foo", false), "CREATE SCHEMA foo").unwrap();
    let err = exec(&mut service, &drop, "DROP TABLE foo.numbers").unwrap_err();
    assert_eq!(err.get_message(), "Table foo.numbers does not exist");
}
