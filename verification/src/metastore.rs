//! The metadata model the SQL service drives: schemas, tables, indexes, WAL
//! entries and partitions, with the id discipline and the invariants the
//! statements rely on.
use vstd::prelude::*;
use vstd::string::*;

use crate::error::CubeError;
use crate::table::{Column, DataFrame, Row};

verus! {

/// A schema row: (id, name). Names are unique.
#[derive(Debug, Clone, PartialEq, Eq)]
pub struct SchemaRow {
    pub id: u64,
    pub name: String,
}

/// An index definition: a name and the ordered list of column names.
#[derive(Debug, Clone, PartialEq, Eq)]
pub struct IndexDef {
    pub name: String,
    pub columns: Vec<String>,
}

/// An index row, attached to a table.
#[derive(Debug, Clone, PartialEq, Eq)]
pub struct IndexRow {
    pub id: u64,
    pub table_id: u64,
    pub index: IndexDef,
}

/// The format of an external table's import source.
#[derive(Debug, Clone, Copy, PartialEq, Eq, Structural)]
pub enum ImportFormat {
    Csv,
}

/// A table row: identity, ordered columns, optional import source, the rows
/// landed in storage, and whether any ingest has touched it.
#[derive(Debug, Clone, PartialEq, Eq)]
pub struct TableRow {
    pub id: u64,
    pub schema_id: u64,
    pub name: String,
    pub columns: Vec<Column>,
    pub location: Option<String>,
    pub import_format: Option<ImportFormat>,
    pub rows: Vec<Row>,
    pub has_data: bool,
}

/// A WAL entry: a buffered row batch awaiting partitioning.
#[derive(Debug, Clone, PartialEq, Eq)]
pub struct WalRow {
    pub id: u64,
    pub table_id: u64,
    pub data: DataFrame,
}

/// A partition row: rows landed from one WAL batch.
#[derive(Debug, Clone, PartialEq, Eq)]
pub struct PartitionRow {
    pub id: u64,
    pub table_id: u64,
    pub row_count: u64,
}

/// The metadata store: every row kind with its next fresh id.
#[derive(Debug, Clone, PartialEq, Eq)]
pub struct MetaStore {
    pub schemas: Vec<SchemaRow>,
    pub tables: Vec<TableRow>,
    pub indexes: Vec<IndexRow>,
    pub wals: Vec<WalRow>,
    pub partitions: Vec<PartitionRow>,
    pub next_schema_id: u64,
    pub next_table_id: u64,
    pub next_index_id: u64,
    pub next_wal_id: u64,
    pub next_partition_id: u64,
}

/// The WAL entry's owning table is present.
pub open spec fn wal_has_table(tables: Seq<TableRow>, w: WalRow) -> bool {
    exists|t: int| 0 <= t < tables.len() && (#[trigger] tables[t]).id == w.table_id
}

/// A table's columns are indexed by declaration order.
pub open spec fn columns_well_indexed(columns: Seq<Column>) -> bool {
    forall|j: int| 0 <= j < columns.len() ==> (#[trigger] columns[j]).spec_index() == j
}

impl MetaStore {
    /// The id discipline and the structural invariants of the store:
    /// ids are unique per kind and below the next fresh id, schema names are
    /// unique, every table's columns are indexed by declaration order, and a
    /// WAL entry exists only while its owning table does.
    pub open spec fn wf(&self) -> bool {
        &&& forall|i: int, j: int|
            0 <= i < j < self.schemas@.len() ==> (#[trigger] self.schemas@[i]).id != (
            #[trigger] self.schemas@[j]).id && self.schemas@[i].name@ != self.schemas@[j].name@
        &&& forall|i: int|
            0 <= i < self.schemas@.len() ==> (#[trigger] self.schemas@[i]).id
                < self.next_schema_id
        &&& forall|i: int, j: int|
            0 <= i < j < self.tables@.len() ==> (#[trigger] self.tables@[i]).id != (
            #[trigger] self.tables@[j]).id && !(self.tables@[i].schema_id
            == self.tables@[j].schema_id && self.tables@[i].name@ == self.tables@[j].name@)
        &&& forall|i: int|
            0 <= i < self.tables@.len() ==> (#[trigger] self.tables@[i]).id < self.next_table_id
        &&& forall|i: int|
            0 <= i < self.tables@.len() ==> columns_well_indexed(
                (#[trigger] self.tables@[i]).columns@,
            )
        &&& forall|i: int, j: int|
            0 <= i < j < self.wals@.len() ==> (#[trigger] self.wals@[i]).id != (
            #[trigger] self.wals@[j]).id
        &&& forall|i: int|
            0 <= i < self.wals@.len() ==> (#[trigger] self.wals@[i]).id < self.next_wal_id
        &&& forall|i: int|
            0 <= i < self.wals@.len() ==> wal_has_table(self.tables@, #[trigger] self.wals@[i])
        &&& forall|i: int|
            0 <= i < self.indexes@.len() ==> (#[trigger] self.indexes@[i]).id
                < self.next_index_id
        &&& forall|i: int|
            0 <= i < self.partitions@.len() ==> (#[trigger] self.partitions@[i]).id
                < self.next_partition_id
    }

    /// A fresh, empty store; ids start at 1.
    pub fn new() -> (s: MetaStore)
        ensures
            s.wf(),
            s.schemas@.len() == 0,
            s.tables@.len() == 0,
            s.indexes@.len() == 0,
            s.wals@.len() == 0,
            s.partitions@.len() == 0,
            s.next_schema_id == 1,
            s.next_table_id == 1,
            s.next_index_id == 1,
            s.next_wal_id == 1,
            s.next_partition_id == 1,
    {
        MetaStore {
            schemas: Vec::new(),
            tables: Vec::new(),
            indexes: Vec::new(),
            wals: Vec::new(),
            partitions: Vec::new(),
            next_schema_id: 1,
            next_table_id: 1,
            next_index_id: 1,
            next_wal_id: 1,
            next_partition_id: 1,
        }
    }
}

/// Whether some schema carries this name.
pub open spec fn has_schema(schemas: Seq<SchemaRow>, name: Seq<char>) -> bool {
    exists|i: int| 0 <= i < schemas.len() && (#[trigger] schemas[i]).name@ == name
}

/// Whether some table belongs to the schema and carries this name.
pub open spec fn has_table(tables: Seq<TableRow>, schema_id: u64, name: Seq<char>) -> bool {
    exists|i: int|
        0 <= i < tables.len() && (#[trigger] tables[i]).schema_id == schema_id
            && tables[i].name@ == name
}

impl MetaStore {
    /// Find the schema row carrying this name.
    pub fn find_schema(&self, name: &String) -> (r: Option<&SchemaRow>)
        ensures
            r is Some <==> has_schema(self.schemas@, name@),
            r matches Some(row) ==> exists|i: int|
                0 <= i < self.schemas@.len() && *row == #[trigger] self.schemas@[i]
                    && row.name@ == name@,
    {
        let mut i: usize = 0;
        while i < self.schemas.len()
            invariant
                i <= self.schemas@.len(),
                forall|t: int| 0 <= t < i ==> (#[trigger] self.schemas@[t]).name@ != name@,
            decreases self.schemas@.len() - i,
        {
            if self.schemas[i].name.eq(name) {
                return Some(&self.schemas[i]);
            }
            i += 1;
        }
        None
    }

    /// Find the table row under the named schema.
    pub fn find_table(&self, schema_id: u64, name: &String) -> (r: Option<&TableRow>)
        ensures
            r is Some <==> has_table(self.tables@, schema_id, name@),
            r matches Some(row) ==> exists|i: int|
                0 <= i < self.tables@.len() && *row == #[trigger] self.tables@[i]
                    && row.schema_id == schema_id && row.name@ == name@,
    {
        let mut i: usize = 0;
        while i < self.tables.len()
            invariant
                i <= self.tables@.len(),
                forall|t: int|
                    0 <= t < i ==> !((#[trigger] self.tables@[t]).schema_id == schema_id
                        && self.tables@[t].name@ == name@),
            decreases self.tables@.len() - i,
        {
            if self.tables[i].schema_id == schema_id && self.tables[i].name.eq(name) {
                proof {
                    let row = self.tables@[i as int];
                    assert(row.schema_id == schema_id && row.name@ == name@);
                }
                return Some(&self.tables[i]);
            }
            i += 1;
        }
        None
    }
}

} // verus!

verus! {

/// The schema rows and their id counter agree between two stores.
pub open spec fn eq_schemas(a: MetaStore, b: MetaStore) -> bool {
    a.schemas == b.schemas && a.next_schema_id == b.next_schema_id
}

/// The table rows and their id counter agree between two stores.
pub open spec fn eq_tables(a: MetaStore, b: MetaStore) -> bool {
    a.tables == b.tables && a.next_table_id == b.next_table_id
}

/// The index rows and their id counter agree between two stores.
pub open spec fn eq_indexes(a: MetaStore, b: MetaStore) -> bool {
    a.indexes == b.indexes && a.next_index_id == b.next_index_id
}

/// The WAL entries and their id counter agree between two stores.
pub open spec fn eq_wals(a: MetaStore, b: MetaStore) -> bool {
    a.wals == b.wals && a.next_wal_id == b.next_wal_id
}

/// The partition rows and their id counter agree between two stores.
pub open spec fn eq_partitions(a: MetaStore, b: MetaStore) -> bool {
    a.partitions == b.partitions && a.next_partition_id == b.next_partition_id
}

/// There is a schema with this name and this id.
pub open spec fn schema_named(schemas: Seq<SchemaRow>, name: Seq<char>, id: u64) -> bool {
    exists|i: int|
        0 <= i < schemas.len() && (#[trigger] schemas[i]).name@ == name && schemas[i].id == id
}

/// There is a table with this name, under the schema of this name, with
/// `has_data` as given.
pub open spec fn table_named(
    schemas: Seq<SchemaRow>,
    tables: Seq<TableRow>,
    schema_name: Seq<char>,
    table_name: Seq<char>,
    table_id: u64,
    has_data: bool,
) -> bool {
    exists|i: int, j: int|
        {
            &&& 0 <= i < schemas.len()
            &&& (#[trigger] schemas[i]).name@ == schema_name
            &&& 0 <= j < tables.len()
            &&& (#[trigger] tables[j]).schema_id == schemas[i].id
            &&& tables[j].name@ == table_name
            &&& tables[j].id == table_id
            &&& tables[j].has_data == has_data
        }
}

/// There is some table of this name under the schema of this name.
pub open spec fn some_table_named(
    schemas: Seq<SchemaRow>,
    tables: Seq<TableRow>,
    schema_name: Seq<char>,
    table_name: Seq<char>,
) -> bool {
    exists|id: u64, hd: bool| table_named(schemas, tables, schema_name, table_name, id, hd)
}

impl MetaStore {
    /// Create a schema row and return its id, or the existing row's id under
    /// `if_not_exists`; a second schema of the same name is otherwise a user
    /// error.
    pub fn create_schema(&mut self, name: String, if_not_exists: bool) -> (r: Result<
        u64,
        CubeError,
    >)
        requires
            old(self).wf(),
            old(self).next_schema_id < u64::MAX,
        ensures
            final(self).wf(),
            eq_tables(*old(self), *final(self)),
            eq_indexes(*old(self), *final(self)),
            eq_wals(*old(self), *final(self)),
            eq_partitions(*old(self), *final(self)),
            has_schema(old(self).schemas@, name@) ==> {
                &&& *final(self) == *old(self)
                &&& (r is Ok <==> if_not_exists)
                &&& (r matches Ok(id) ==> schema_named(old(self).schemas@, name@, id))
                &&& (r matches Err(e) ==> e.message@ == "Schema "@ + name@ + " already exists"@)
            },
            !has_schema(old(self).schemas@, name@) ==> (r matches Ok(id) && {
                &&& id == old(self).next_schema_id
                &&& final(self).schemas@.len() == old(self).schemas@.len() + 1
                &&& final(self).schemas@.subrange(0, old(self).schemas@.len() as int) == old(
                    self,
                ).schemas@
                &&& final(self).schemas@.last().id == id
                &&& final(self).schemas@.last().name@ == name@
                &&& final(self).next_schema_id == old(self).next_schema_id + 1
            }),
    {
        let existing: Option<u64> = match self.find_schema(&name) {
            Some(row) => Some(row.id),
            None => None,
        };
        match existing {
            Some(id) => {
                if if_not_exists {
                    Ok(id)
                } else {
                    Err(
                        CubeError::user(
                            String::from_str("Schema ").concat(name.as_str()).concat(
                                " already exists",
                            ),
                        ),
                    )
                }
            },
            None => {
                let id = self.next_schema_id;
                self.schemas.push(SchemaRow { id, name });
                self.next_schema_id = id + 1;
                proof {
                    let s = self.schemas@;
                    assert forall|i: int, j: int| 0 <= i < j < s.len() implies (
                    #[trigger] s[i]).id != (#[trigger] s[j]).id && s[i].name@ != s[j].name@ by {
                        if j == s.len() - 1 {
                            assert(s[i] == old(self).schemas@[i]);
                        }
                    }
                    assert(s.subrange(0, old(self).schemas@.len() as int) =~= old(self).schemas@);
                    assert(self.tables@.subrange(0, old(self).tables@.len() as int) =~= old(
                        self,
                    ).tables@);
                    lemma_wal_tables_preserved(*old(self), *self);
                }
                Ok(id)
            },
        }
    }

    /// Create a table row under the named schema, with its embedded index
    /// definitions, and return its id; the schema must exist and the table
    /// name must be new under it.
    #[verifier::loop_isolation(false)]
    #[verifier::rlimit(60)]
    pub fn create_table(
        &mut self,
        schema_name: &String,
        table_name: &String,
        columns: Vec<Column>,
        location: &Option<String>,
        import_format: Option<ImportFormat>,
        indexes: Vec<IndexDef>,
    ) -> (r: Result<u64, CubeError>)
        requires
            old(self).wf(),
            old(self).next_table_id < u64::MAX,
            old(self).next_index_id + indexes@.len() < u64::MAX,
            columns_well_indexed(columns@),
        ensures
            final(self).wf(),
            eq_schemas(*old(self), *final(self)),
            eq_wals(*old(self), *final(self)),
            eq_partitions(*old(self), *final(self)),
            r is Err ==> *final(self) == *old(self),
            !has_schema(old(self).schemas@, schema_name@) ==> (r matches Err(e) && e.message@
                == "Schema "@ + schema_name@ + " does not exist"@),
            has_schema(old(self).schemas@, schema_name@) && !some_table_named(
                old(self).schemas@,
                old(self).tables@,
                schema_name@,
                table_name@,
            ) ==> r is Ok,
            some_table_named(
                old(self).schemas@,
                old(self).tables@,
                schema_name@,
                table_name@,
            ) ==> (r matches Err(e) && e.message@ == "Table "@ + schema_name@ + "."@ + table_name@
                + " already exists"@),
            r matches Ok(id) ==> {
                let t = final(self).tables@.last();
                &&& id == old(self).next_table_id
                &&& final(self).tables@.len() == old(self).tables@.len() + 1
                &&& final(self).tables@.subrange(0, old(self).tables@.len() as int) == old(
                    self,
                ).tables@
                &&& t.id == id
                &&& schema_named(old(self).schemas@, schema_name@, t.schema_id)
                &&& t.name@ == table_name@
                &&& t.columns@ == columns@
                &&& t.location == *location
                &&& t.import_format == import_format
                &&& t.rows@.len() == 0
                &&& t.has_data == (location is Some)
                &&& final(self).next_table_id == old(self).next_table_id + 1
                &&& final(self).indexes@.len() == old(self).indexes@.len() + indexes@.len()
                &&& final(self).indexes@.subrange(0, old(self).indexes@.len() as int) == old(
                    self,
                ).indexes@
                &&& forall|k: int|
                    0 <= k < indexes@.len() ==> {
                        let ix = #[trigger] final(self).indexes@[old(self).indexes@.len() + k];
                        &&& ix.id == old(self).next_index_id + k
                        &&& ix.table_id == id
                        &&& ix.index == indexes@[k]
                    }
                &&& final(self).next_index_id == old(self).next_index_id + indexes@.len()
            },
    {
        let schema_id: u64 = match self.find_schema(schema_name) {
            Some(row) => row.id,
            None => {
                return Err(
                    CubeError::user(
                        String::from_str("Schema ").concat(schema_name.as_str()).concat(
                            " does not exist",
                        ),
                    ),
                );
            },
        };
        if self.find_table(schema_id, table_name).is_some() {
            proof {
                assert(schema_named(self.schemas@, schema_name@, schema_id));
                let i = choose|i: int|
                    0 <= i < self.schemas@.len() && (#[trigger] self.schemas@[i]).name@
                        == schema_name@ && self.schemas@[i].id == schema_id;
                let j = choose|j: int|
                    0 <= j < self.tables@.len() && (#[trigger] self.tables@[j]).schema_id
                        == schema_id && self.tables@[j].name@ == table_name@;
                assert(table_named(
                    self.schemas@,
                    self.tables@,
                    schema_name@,
                    table_name@,
                    self.tables@[j].id,
                    self.tables@[j].has_data,
                ));
            }
            return Err(
                CubeError::user(
                    String::from_str("Table ").concat(schema_name.as_str()).concat(".").concat(
                        table_name.as_str(),
                    ).concat(" already exists"),
                ),
            );
        }
        proof {
            assert(schema_named(self.schemas@, schema_name@, schema_id));
            lemma_named_schema_unique(self.schemas@, schema_name@, schema_id);
            assert forall|tid: u64, hd: bool|
                !table_named(
                    self.schemas@,
                    self.tables@,
                    schema_name@,
                    table_name@,
                    tid,
                    hd,
                ) by {
                if table_named(self.schemas@, self.tables@, schema_name@, table_name@, tid, hd) {
                    let (i, j): (int, int) = choose|i: int, j: int|
                        {
                            &&& 0 <= i < self.schemas@.len()
                            &&& (#[trigger] self.schemas@[i]).name@ == schema_name@
                            &&& 0 <= j < self.tables@.len()
                            &&& (#[trigger] self.tables@[j]).schema_id == self.schemas@[i].id
                            &&& self.tables@[j].name@ == table_name@
                            &&& self.tables@[j].id == tid
                            &&& self.tables@[j].has_data == hd
                        };
                    assert(schema_named(self.schemas@, schema_name@, self.schemas@[i].id));
                    assert(self.schemas@[i].id == schema_id);
                    assert(has_table(self.tables@, schema_id, table_name@));
                }
            }
        }
        let id = self.next_table_id;
        let row = TableRow {
            id,
            schema_id,
            name: table_name.clone(),
            columns,
            location: match location {
                Some(l) => Some(l.clone()),
                None => None,
            },
            import_format,
            rows: Vec::new(),
            has_data: location.is_some(),
        };
        self.tables.push(row);
        self.next_table_id = id + 1;
        proof {
            let ts = self.tables@;
            assert forall|i: int, j: int| 0 <= i < j < ts.len() implies (#[trigger] ts[i]).id != (
            #[trigger] ts[j]).id by {
                if j == ts.len() - 1 {
                    assert(ts[i] == old(self).tables@[i]);
                }
            }
            assert(ts.subrange(0, old(self).tables@.len() as int) =~= old(self).tables@);
            lemma_wal_tables_preserved(*old(self), *self);
            assert forall|i: int|
                0 <= i < self.tables@.len() implies columns_well_indexed(
                (#[trigger] self.tables@[i]).columns@,
            ) by {
                if i < old(self).tables@.len() {
                    assert(self.tables@[i] == old(self).tables@[i]);
                }
            }
            assert forall|i: int, j: int|
                0 <= i < j < self.tables@.len() implies !((#[trigger] self.tables@[i]).schema_id
                == (#[trigger] self.tables@[j]).schema_id && self.tables@[i].name@
                == self.tables@[j].name@) by {
                if j == self.tables@.len() - 1 {
                    assert(self.tables@[i] == old(self).tables@[i]);
                    if self.tables@[i].schema_id == schema_id && self.tables@[i].name@
                        == table_name@ {
                        assert(has_table(old(self).tables@, schema_id, table_name@));
                    }
                }
            }
            assert(self.wf());
        }
        let ghost mid = *self;
        let ghost all_defs = indexes@;
        let mut defs = indexes;
        let total: usize = defs.len();
        let ghost n_defs = all_defs.len();
        let mut k: usize = 0;
        proof {
            assert(n_defs == total as int);
        }
        proof {
            assert(defs@ =~= all_defs.subrange(0, n_defs as int));
        }
        while defs.len() > 0
            invariant
                n_defs == total as int,
                k + defs@.len() == n_defs,
                defs@ == all_defs.subrange(k as int, n_defs as int),
                mid.wf(),
                mid.next_index_id == old(self).next_index_id,
                mid.next_index_id + n_defs < u64::MAX,
                mid.indexes@ == old(self).indexes@,
                eq_schemas(mid, *self),
                eq_tables(mid, *self),
                eq_wals(mid, *self),
                eq_partitions(mid, *self),
                self.next_index_id == mid.next_index_id + k,
                self.indexes@.len() == mid.indexes@.len() + k,
                self.indexes@.subrange(0, mid.indexes@.len() as int) == mid.indexes@,
                forall|t: int|
                    0 <= t < k ==> {
                        let ix = #[trigger] self.indexes@[mid.indexes@.len() + t];
                        &&& ix.id == mid.next_index_id + t
                        &&& ix.table_id == id
                        &&& ix.index == all_defs[t]
                    },
                forall|t: int|
                    0 <= t < self.indexes@.len() ==> (#[trigger] self.indexes@[t]).id
                        < self.next_index_id,
            decreases defs@.len(),
        {
            proof {
                assert(k < n_defs);
                assert(defs@[0] == all_defs.subrange(k as int, n_defs as int)[0]);
                assert(defs@[0] == all_defs[k as int]);
            }
            let def = defs.remove(0);
            proof {
                assert(def == all_defs[k as int]);
            }
            let ix = IndexRow { id: self.next_index_id, table_id: id, index: def };
            self.indexes.push(ix);
            self.next_index_id = self.next_index_id + 1;
            proof {
                assert(self.indexes@.subrange(0, mid.indexes@.len() as int) =~= mid.indexes@);
                assert(defs@ =~= all_defs.subrange(k + 1, n_defs as int));
            }
            k += 1;
        }
        Ok(id)
    }

    /// Create a standalone index on the named table and return its id; a
    /// table that has received any data refuses new indexes.
    pub fn create_index(&mut self, schema_name: &String, table_name: &String, index: IndexDef)
        -> (r: Result<u64, CubeError>)
        requires
            old(self).wf(),
            old(self).next_index_id < u64::MAX,
        ensures
            final(self).wf(),
            eq_schemas(*old(self), *final(self)),
            eq_tables(*old(self), *final(self)),
            eq_wals(*old(self), *final(self)),
            eq_partitions(*old(self), *final(self)),
            r is Err ==> *final(self) == *old(self),
            !has_schema(old(self).schemas@, schema_name@) ==> (r matches Err(e) && e.message@
                == "Schema "@ + schema_name@ + " does not exist"@),
            r matches Ok(id) ==> id == old(self).next_index_id && final(self).indexes@.len()
                == old(self).indexes@.len() + 1 && final(self).next_index_id == old(
                self,
            ).next_index_id + 1,
            forall|tid: u64|
                table_named(
                    old(self).schemas@,
                    old(self).tables@,
                    schema_name@,
                    table_name@,
                    tid,
                    true,
                ) ==> (r matches Err(e) && e.message@ == "Table "@ + schema_name@ + "."@
                    + table_name@ + " has data"@),
            forall|tid: u64|
                table_named(
                    old(self).schemas@,
                    old(self).tables@,
                    schema_name@,
                    table_name@,
                    tid,
                    false,
                ) ==> (r matches Ok(id) && {
                    &&& id == old(self).next_index_id
                    &&& final(self).indexes@.len() == old(self).indexes@.len() + 1
                    &&& final(self).indexes@.subrange(0, old(self).indexes@.len() as int) == old(
                        self,
                    ).indexes@
                    &&& final(self).indexes@.last().id == id
                    &&& final(self).indexes@.last().table_id == tid
                    &&& final(self).indexes@.last().index == index
                    &&& final(self).next_index_id == old(self).next_index_id + 1
                }),
    {
        let schema_id: u64 = match self.find_schema(schema_name) {
            Some(row) => row.id,
            None => {
                return Err(
                    CubeError::user(
                        String::from_str("Schema ").concat(schema_name.as_str()).concat(
                            " does not exist",
                        ),
                    ),
                );
            },
        };
        proof {
            assert(schema_named(self.schemas@, schema_name@, schema_id));
            lemma_named_schema_unique(self.schemas@, schema_name@, schema_id);
        }
        let (table_id, table_has_data): (u64, bool) = match self.find_table(
            schema_id,
            table_name,
        ) {
            Some(t) => (t.id, t.has_data),
            None => {
                proof {
                    lemma_named_table_unique(self.schemas@, self.tables@, schema_name@, schema_id);
                }
                return Err(
                    CubeError::user(
                        String::from_str("Table ").concat(schema_name.as_str()).concat(
                            ".",
                        ).concat(table_name.as_str()).concat(" does not exist"),
                    ),
                );
            },
        };
        if table_has_data {
            proof {
                assert forall|tid: u64, hd: bool|
                    table_named(
                        self.schemas@,
                        self.tables@,
                        schema_name@,
                        table_name@,
                        tid,
                        hd,
                    ) implies hd == true by {
                    let j = choose|j: int|
                        0 <= j < self.tables@.len() && (#[trigger] self.tables@[j]).schema_id
                            == schema_id && self.tables@[j].name@ == table_name@
                            && self.tables@[j].id == tid && self.tables@[j].has_data == hd;
                    let jf = choose|jf: int|
                        0 <= jf < self.tables@.len() && (#[trigger] self.tables@[jf]).schema_id
                            == schema_id && self.tables@[jf].name@ == table_name@
                            && self.tables@[jf].id == table_id && self.tables@[jf].has_data
                            == table_has_data;
                    if j < jf {
                        assert(!(self.tables@[j].schema_id == self.tables@[jf].schema_id
                            && self.tables@[j].name@ == self.tables@[jf].name@));
                    } else if jf < j {
                        assert(!(self.tables@[jf].schema_id == self.tables@[j].schema_id
                            && self.tables@[jf].name@ == self.tables@[j].name@));
                    }
                }
            }
            return Err(
                CubeError::user(
                    String::from_str("Table ").concat(schema_name.as_str()).concat(".").concat(
                        table_name.as_str(),
                    ).concat(" has data"),
                ),
            );
        }
        let id = self.next_index_id;
        self.indexes.push(IndexRow { id, table_id, index });
        self.next_index_id = id + 1;
        proof {
            assert(self.indexes@.subrange(0, old(self).indexes@.len() as int) =~= old(
                self,
            ).indexes@);
            assert(self.tables@.subrange(0, old(self).tables@.len() as int) =~= old(
                self,
            ).tables@);
            lemma_wal_tables_preserved(*old(self), *self);
            assert(self.indexes@.last().index == index);
            assert forall|tid: u64, hd: bool|
                table_named(
                    old(self).schemas@,
                    old(self).tables@,
                    schema_name@,
                    table_name@,
                    tid,
                    hd,
                ) implies tid == table_id && hd == false by {
                let j = choose|j: int|
                    0 <= j < old(self).tables@.len() && (#[trigger] old(self).tables@[j]).schema_id
                        == schema_id && old(self).tables@[j].name@ == table_name@ && old(
                        self,
                    ).tables@[j].id == tid && old(self).tables@[j].has_data == hd;
                let jf = choose|jf: int|
                    0 <= jf < old(self).tables@.len() && (#[trigger] old(
                        self,
                    ).tables@[jf]).schema_id == schema_id && old(self).tables@[jf].name@
                        == table_name@ && old(self).tables@[jf].id == table_id && old(
                        self,
                    ).tables@[jf].has_data == table_has_data;
                if j != jf {
                    if j < jf {
                        assert(!(old(self).tables@[j].schema_id == old(self).tables@[jf].schema_id
                            && old(self).tables@[j].name@ == old(self).tables@[jf].name@));
                    } else {
                        assert(!(old(self).tables@[jf].schema_id == old(self).tables@[j].schema_id
                            && old(self).tables@[jf].name@ == old(self).tables@[j].name@));
                    }
                }
            }
        }
        Ok(id)
    }
}

/// Every WAL entry keeps an owning table when the WAL entries are unchanged
/// and the table list is only extended.
pub proof fn lemma_wal_tables_preserved(a: MetaStore, b: MetaStore)
    requires
        a.wf(),
        b.wals@ == a.wals@,
        b.tables@.len() >= a.tables@.len(),
        b.tables@.subrange(0, a.tables@.len() as int) == a.tables@,
    ensures
        forall|i: int|
            0 <= i < b.wals@.len() ==> wal_has_table(b.tables@, #[trigger] b.wals@[i]),
{
    assert forall|i: int| 0 <= i < b.wals@.len() implies wal_has_table(
        b.tables@,
        #[trigger] b.wals@[i],
    ) by {
        assert(a.wals@[i] == b.wals@[i]);
        assert(wal_has_table(a.tables@, a.wals@[i]));
        let t = choose|t: int|
            0 <= t < a.tables@.len() && (#[trigger] a.tables@[t]).id == a.wals@[i].table_id;
        assert(b.tables@.subrange(0, a.tables@.len() as int)[t] == a.tables@[t]);
        assert(b.tables@[t] == a.tables@[t]);
    }
}

/// Under well-formedness, two schemas never share a name, so a named schema
/// determines its id.
pub proof fn lemma_named_schema_unique(schemas: Seq<SchemaRow>, name: Seq<char>, id: u64)
    requires
        forall|i: int, j: int|
            0 <= i < j < schemas.len() ==> (#[trigger] schemas[i]).id != (
            #[trigger] schemas[j]).id && schemas[i].name@ != schemas[j].name@,
        schema_named(schemas, name, id),
    ensures
        forall|id2: u64| schema_named(schemas, name, id2) ==> id2 == id,
{
    assert forall|id2: u64| schema_named(schemas, name, id2) implies id2 == id by {
        let i = choose|i: int|
            0 <= i < schemas.len() && (#[trigger] schemas[i]).name@ == name && schemas[i].id == id;
        let j = choose|j: int|
            0 <= j < schemas.len() && (#[trigger] schemas[j]).name@ == name && schemas[j].id
                == id2;
        if i < j {
            assert(schemas[i].name@ != schemas[j].name@);
        } else if j < i {
            assert(schemas[j].name@ != schemas[i].name@);
        }
    }
}

/// Under well-formedness, the named-table facts all describe the row that
/// `find_table` inspects: they agree with its presence, id and data flag.
pub proof fn lemma_named_table_unique(
    schemas: Seq<SchemaRow>,
    tables: Seq<TableRow>,
    schema_name: Seq<char>,
    schema_id: u64,
)
    requires
        forall|i: int, j: int|
            0 <= i < j < schemas.len() ==> (#[trigger] schemas[i]).id != (
            #[trigger] schemas[j]).id && schemas[i].name@ != schemas[j].name@,
        schema_named(schemas, schema_name, schema_id),
    ensures
        forall|table_name: Seq<char>, tid: u64, hd: bool|
            table_named(schemas, tables, schema_name, table_name, tid, hd) ==> exists|j: int|
                0 <= j < tables.len() && (#[trigger] tables[j]).schema_id == schema_id
                    && tables[j].name@ == table_name && tables[j].id == tid && tables[j].has_data
                    == hd,
{
    lemma_named_schema_unique(schemas, schema_name, schema_id);
    assert forall|table_name: Seq<char>, tid: u64, hd: bool|
        table_named(schemas, tables, schema_name, table_name, tid, hd) implies exists|j: int|
        0 <= j < tables.len() && (#[trigger] tables[j]).schema_id == schema_id && tables[j].name@
            == table_name && tables[j].id == tid && tables[j].has_data == hd by {
        let (i, j): (int, int) = choose|i: int, j: int|
            {
                &&& 0 <= i < schemas.len()
                &&& (#[trigger] schemas[i]).name@ == schema_name
                &&& 0 <= j < tables.len()
                &&& (#[trigger] tables[j]).schema_id == schemas[i].id
                &&& tables[j].name@ == table_name
                &&& tables[j].id == tid
                &&& tables[j].has_data == hd
            };
        assert(schema_named(schemas, schema_name, schemas[i].id));
        assert(schemas[i].id == schema_id);
    }
}

/// Under well-formedness, at most one table row carries a given name under
/// a given schema name: any row named like the one at `ti` is the one at
/// `ti`.
pub proof fn lemma_named_table_index_unique(
    store: MetaStore,
    schema_name: Seq<char>,
    sid: u64,
    table_name: Seq<char>,
    ti: int,
)
    requires
        store.wf(),
        schema_named(store.schemas@, schema_name, sid),
        0 <= ti < store.tables@.len(),
        store.tables@[ti].schema_id == sid,
        store.tables@[ti].name@ == table_name,
    ensures
        forall|ti2: int|
            0 <= ti2 < store.tables@.len() && schema_named(
                store.schemas@,
                schema_name,
                (#[trigger] store.tables@[ti2]).schema_id,
            ) && store.tables@[ti2].name@ == table_name ==> ti2 == ti,
{
    lemma_named_schema_unique(store.schemas@, schema_name, sid);
    assert forall|ti2: int|
        0 <= ti2 < store.tables@.len() && schema_named(
            store.schemas@,
            schema_name,
            (#[trigger] store.tables@[ti2]).schema_id,
        ) && store.tables@[ti2].name@ == table_name implies ti2 == ti by {
        assert(store.tables@[ti2].schema_id == sid);
        if ti2 < ti {
            assert(!(store.tables@[ti2].schema_id == store.tables@[ti].schema_id
                && store.tables@[ti2].name@ == store.tables@[ti].name@));
        } else if ti < ti2 {
            assert(!(store.tables@[ti].schema_id == store.tables@[ti2].schema_id
                && store.tables@[ti].name@ == store.tables@[ti2].name@));
        }
    }
}

/// An equal copy of a list of strings.
pub fn duplicate_strings(v: &Vec<String>) -> (r: Vec<String>)
    ensures
        r@ == v@,
{
    let mut r: Vec<String> = Vec::new();
    let mut i: usize = 0;
    while i < v.len()
        invariant
            i <= v@.len(),
            r@ == v@.subrange(0, i as int),
        decreases v@.len() - i,
    {
        r.push(v[i].clone());
        proof {
            assert(r@ =~= v@.subrange(0, i + 1));
        }
        i += 1;
    }
    proof {
        assert(r@ =~= v@);
    }
    r
}

} // verus!

verus! {

/// Keep the schemas that do not carry this name.
pub open spec fn keep_schema(schema_name: Seq<char>) -> spec_fn(SchemaRow) -> bool {
    |s: SchemaRow| s.name@ != schema_name
}

/// Keep the tables outside this schema.
pub open spec fn keep_table(sid: u64) -> spec_fn(TableRow) -> bool {
    |t: TableRow| t.schema_id != sid
}

/// Keep the WAL entries whose owning table is outside this schema.
pub open spec fn keep_wal(tables: Seq<TableRow>, sid: u64) -> spec_fn(WalRow) -> bool {
    |w: WalRow| !table_in_schema(tables, w.table_id, sid)
}

/// Keep the indexes whose table is outside this schema.
pub open spec fn keep_index(tables: Seq<TableRow>, sid: u64) -> spec_fn(IndexRow) -> bool {
    |x: IndexRow| !table_in_schema(tables, x.table_id, sid)
}

/// Keep the partitions whose table is outside this schema.
pub open spec fn keep_partition(tables: Seq<TableRow>, sid: u64) -> spec_fn(PartitionRow) -> bool {
    |p: PartitionRow| !table_in_schema(tables, p.table_id, sid)
}

/// The table with this id belongs to this schema id.
pub open spec fn table_in_schema(tables: Seq<TableRow>, table_id: u64, schema_id: u64) -> bool {
    exists|t: int|
        0 <= t < tables.len() && (#[trigger] tables[t]).id == table_id && tables[t].schema_id
            == schema_id
}

/// Some table carries this id.
pub open spec fn table_with_id(tables: Seq<TableRow>, table_id: u64) -> bool {
    exists|t: int| 0 <= t < tables.len() && (#[trigger] tables[t]).id == table_id
}

impl MetaStore {
    /// Whether the table with this id belongs to the schema with this id.
    fn check_table_in_schema(&self, table_id: u64, schema_id: u64) -> (r: bool)
        ensures
            r == table_in_schema(self.tables@, table_id, schema_id),
    {
        let mut i: usize = 0;
        while i < self.tables.len()
            invariant
                i <= self.tables@.len(),
                forall|t: int|
                    0 <= t < i ==> !((#[trigger] self.tables@[t]).id == table_id
                        && self.tables@[t].schema_id == schema_id),
            decreases self.tables@.len() - i,
        {
            if self.tables[i].id == table_id && self.tables[i].schema_id == schema_id {
                return true;
            }
            i += 1;
        }
        false
    }

    /// The position of the table with this id.
    fn table_index(&self, table_id: u64) -> (r: Option<usize>)
        ensures
            r is Some <==> table_with_id(self.tables@, table_id),
            r matches Some(i) ==> 0 <= i < self.tables@.len() && self.tables@[i as int].id
                == table_id,
    {
        let mut i: usize = 0;
        while i < self.tables.len()
            invariant
                i <= self.tables@.len(),
                forall|t: int| 0 <= t < i ==> (#[trigger] self.tables@[t]).id != table_id,
            decreases self.tables@.len() - i,
        {
            if self.tables[i].id == table_id {
                return Some(i);
            }
            i += 1;
        }
        None
    }

    /// The position of the WAL entry with this id.
    fn wal_index(&self, wal_id: u64) -> (r: Option<usize>)
        ensures
            r is Some <==> exists|w: int|
                0 <= w < self.wals@.len() && (#[trigger] self.wals@[w]).id == wal_id,
            r matches Some(i) ==> 0 <= i < self.wals@.len() && self.wals@[i as int].id == wal_id,
    {
        let mut i: usize = 0;
        while i < self.wals.len()
            invariant
                i <= self.wals@.len(),
                forall|t: int| 0 <= t < i ==> (#[trigger] self.wals@[t]).id != wal_id,
            decreases self.wals@.len() - i,
        {
            if self.wals[i].id == wal_id {
                return Some(i);
            }
            i += 1;
        }
        None
    }

    /// Append a WAL entry holding this row batch to the table with this id,
    /// mark the table as having data, and return the entry's id.
    pub fn add_wal(&mut self, table_id: u64, data: DataFrame) -> (r: Result<u64, CubeError>)
        requires
            old(self).wf(),
            old(self).next_wal_id < u64::MAX,
        ensures
            final(self).wf(),
            eq_schemas(*old(self), *final(self)),
            eq_indexes(*old(self), *final(self)),
            eq_partitions(*old(self), *final(self)),
            r is Ok <==> table_with_id(old(self).tables@, table_id),
            r is Err ==> *final(self) == *old(self),
            r matches Ok(id) ==> (exists|ti: int|
                {
                    &&& 0 <= ti < old(self).tables@.len()
                    &&& (#[trigger] old(self).tables@[ti]).id == table_id
                    &&& id == old(self).next_wal_id
                    &&& final(self).wals@.len() == old(self).wals@.len() + 1
                    &&& final(self).wals@.subrange(0, old(self).wals@.len() as int) == old(
                        self,
                    ).wals@
                    &&& final(self).wals@.last().id == id
                    &&& final(self).wals@.last().table_id == table_id
                    &&& final(self).wals@.last().data == data
                    &&& final(self).next_wal_id == old(self).next_wal_id + 1
                    &&& final(self).tables@.len() == old(self).tables@.len()
                    &&& final(self).tables@[ti].has_data == true
                    &&& final(self).tables@[ti].id == old(self).tables@[ti].id
                    &&& final(self).tables@[ti].schema_id == old(self).tables@[ti].schema_id
                    &&& final(self).tables@[ti].name == old(self).tables@[ti].name
                    &&& final(self).tables@[ti].columns == old(self).tables@[ti].columns
                    &&& final(self).tables@[ti].location == old(self).tables@[ti].location
                    &&& final(self).tables@[ti].import_format == old(
                        self,
                    ).tables@[ti].import_format
                    &&& final(self).tables@[ti].rows == old(self).tables@[ti].rows
                    &&& (forall|t: int|
                        0 <= t < old(self).tables@.len() && t != ti ==> final(self).tables@[t]
                            == old(self).tables@[t])
                    &&& final(self).next_table_id == old(self).next_table_id
                }),
    {
        let ti = match self.table_index(table_id) {
            Some(i) => i,
            None => {
                return Err(
                    CubeError::user(
                        String::from_str("Table ").concat(
                            crate::numbers::u64_to_string(table_id).as_str(),
                        ).concat(" is not found"),
                    ),
                );
            },
        };
        let id = self.next_wal_id;
        self.tables[ti].has_data = true;
        self.wals.push(WalRow { id, table_id, data });
        self.next_wal_id = id + 1;
        proof {
            assert(self.wals@.subrange(0, old(self).wals@.len() as int) =~= old(self).wals@);
            assert forall|i: int| 0 <= i < self.wals@.len() implies wal_has_table(
                self.tables@,
                #[trigger] self.wals@[i],
            ) by {
                if i < old(self).wals@.len() {
                    assert(self.wals@[i] == old(self).wals@[i]);
                    assert(wal_has_table(old(self).tables@, old(self).wals@[i]));
                    let t = choose|t: int|
                        0 <= t < old(self).tables@.len() && (#[trigger] old(self).tables@[t]).id
                            == old(self).wals@[i].table_id;
                    assert(self.tables@[t].id == old(self).tables@[t].id);
                } else {
                    assert(self.tables@[ti as int].id == table_id);
                }
            }
        }
        Ok(id)
    }

    /// Land one WAL entry: move its row batch into its table's stored rows,
    /// destroy the entry, and record a partition holding the landed rows.
    /// Returns the number of rows landed.
    pub fn activate_wal(&mut self, wal_id: u64) -> (r: Result<usize, CubeError>)
        requires
            old(self).wf(),
            old(self).next_partition_id < u64::MAX,
        ensures
            final(self).wf(),
            eq_schemas(*old(self), *final(self)),
            eq_indexes(*old(self), *final(self)),
            r is Ok <==> exists|w: int|
                0 <= w < old(self).wals@.len() && (#[trigger] old(self).wals@[w]).id == wal_id,
            r is Err ==> *final(self) == *old(self),
            r matches Ok(n) ==> (exists|wi: int, ti: int|
                {
                    &&& 0 <= wi < old(self).wals@.len()
                    &&& (#[trigger] old(self).wals@[wi]).id == wal_id
                    &&& 0 <= ti < old(self).tables@.len()
                    &&& (#[trigger] old(self).tables@[ti]).id == old(self).wals@[wi].table_id
                    &&& n == old(self).wals@[wi].data.spec_rows().len()
                    &&& final(self).wals@ == old(self).wals@.remove(wi)
                    &&& final(self).next_wal_id == old(self).next_wal_id
                    &&& final(self).tables@.len() == old(self).tables@.len()
                    &&& final(self).tables@[ti].rows@ == old(self).tables@[ti].rows@ + old(
                        self,
                    ).wals@[wi].data.spec_rows()
                    &&& final(self).tables@[ti].id == old(self).tables@[ti].id
                    &&& final(self).tables@[ti].schema_id == old(self).tables@[ti].schema_id
                    &&& final(self).tables@[ti].name == old(self).tables@[ti].name
                    &&& final(self).tables@[ti].columns == old(self).tables@[ti].columns
                    &&& final(self).tables@[ti].location == old(self).tables@[ti].location
                    &&& final(self).tables@[ti].import_format == old(
                        self,
                    ).tables@[ti].import_format
                    &&& final(self).tables@[ti].has_data == old(self).tables@[ti].has_data
                    &&& (forall|t: int|
                        0 <= t < old(self).tables@.len() && t != ti ==> final(self).tables@[t]
                            == old(self).tables@[t])
                    &&& final(self).next_table_id == old(self).next_table_id
                    &&& final(self).partitions@.len() == old(self).partitions@.len() + 1
                    &&& final(self).partitions@.subrange(0, old(self).partitions@.len() as int)
                        == old(self).partitions@
                    &&& final(self).partitions@.last().table_id == old(self).wals@[wi].table_id
                    &&& final(self).partitions@.last().row_count == n as u64
                    &&& final(self).next_partition_id == old(self).next_partition_id + 1
                }),
    {
        let wi = match self.wal_index(wal_id) {
            Some(i) => i,
            None => {
                return Err(
                    CubeError::user(
                        String::from_str("WAL ").concat(
                            crate::numbers::u64_to_string(wal_id).as_str(),
                        ).concat(" is not found"),
                    ),
                );
            },
        };
        let table_id = self.wals[wi].table_id;
        let ti = match self.table_index(table_id) {
            Some(i) => i,
            None => {
                proof {
                    assert(wal_has_table(self.tables@, self.wals@[wi as int]));
                    assert(false);
                }
                return Err(CubeError::user(String::from_str("WAL has no table")));
            },
        };
        let wal = self.wals.remove(wi);
        let n = wal.data.data.len();
        let mut landed = wal.data.data;
        self.tables[ti].rows.append(&mut landed);
        let pid = self.next_partition_id;
        self.partitions.push(PartitionRow { id: pid, table_id, row_count: n as u64 });
        self.next_partition_id = pid + 1;
        proof {
            assert(self.partitions@.subrange(0, old(self).partitions@.len() as int) =~= old(
                self,
            ).partitions@);
            assert forall|i: int, j: int| 0 <= i < j < self.wals@.len() implies (
            #[trigger] self.wals@[i]).id != (#[trigger] self.wals@[j]).id by {
                let i0 = if i < wi { i } else { i + 1 };
                let j0 = if j < wi { j } else { j + 1 };
                assert(self.wals@[i] == old(self).wals@[i0]);
                assert(self.wals@[j] == old(self).wals@[j0]);
            }
            assert forall|i: int| 0 <= i < self.wals@.len() implies wal_has_table(
                self.tables@,
                #[trigger] self.wals@[i],
            ) by {
                let i0 = if i < wi { i } else { i + 1 };
                assert(self.wals@[i] == old(self).wals@[i0]);
                assert(wal_has_table(old(self).tables@, old(self).wals@[i0]));
                let t = choose|t: int|
                    0 <= t < old(self).tables@.len() && (#[trigger] old(self).tables@[t]).id
                        == old(self).wals@[i0].table_id;
                assert(self.tables@[t].id == old(self).tables@[t].id);
            }
            assert forall|i: int| 0 <= i < self.wals@.len() implies (#[trigger] self.wals@[i]).id
                < self.next_wal_id by {
                let i0 = if i < wi { i } else { i + 1 };
                assert(self.wals@[i] == old(self).wals@[i0]);
            }
        }
        Ok(n)
    }
}

} // verus!

verus! {

impl MetaStore {
    /// Drop the schema with this name, cascading through its tables and
    /// their WAL entries, indexes and partitions.
    #[verifier::loop_isolation(false)]
    #[verifier::rlimit(60)]
    pub fn drop_schema(&mut self, schema_name: &String) -> (r: Result<(), CubeError>)
        requires
            old(self).wf(),
        ensures
            final(self).wf(),
            r is Ok <==> has_schema(old(self).schemas@, schema_name@),
            r is Ok ==> !has_schema(final(self).schemas@, schema_name@),
            r matches Err(e) ==> *final(self) == *old(self) && e.message@ == "Schema "@
                + schema_name@ + " does not exist"@,
            r is Ok ==> (exists|sid: u64|
                {
                    &&& #[trigger] schema_named(old(self).schemas@, schema_name@, sid)
                    &&& final(self).schemas@ == old(self).schemas@.filter(
                        keep_schema(schema_name@),
                    )
                    &&& final(self).tables@ == old(self).tables@.filter(keep_table(sid))
                    &&& final(self).wals@ == old(self).wals@.filter(
                        keep_wal(old(self).tables@, sid),
                    )
                    &&& final(self).indexes@ == old(self).indexes@.filter(
                        keep_index(old(self).tables@, sid),
                    )
                    &&& final(self).partitions@ == old(self).partitions@.filter(
                        keep_partition(old(self).tables@, sid),
                    )
                }),
            final(self).next_schema_id == old(self).next_schema_id,
            final(self).next_table_id == old(self).next_table_id,
            final(self).next_index_id == old(self).next_index_id,
            final(self).next_wal_id == old(self).next_wal_id,
            final(self).next_partition_id == old(self).next_partition_id,
    {
        let sid: u64 = match self.find_schema(schema_name) {
            Some(row) => row.id,
            None => {
                return Err(
                    CubeError::user(
                        String::from_str("Schema ").concat(schema_name.as_str()).concat(
                            " does not exist",
                        ),
                    ),
                );
            },
        };
        proof {
            assert(schema_named(self.schemas@, schema_name@, sid));
        }
        let ghost orig = *self;

        // WAL entries of the schema's tables go first, while the tables are
        // still present to be tested against.
        let mut work_wals: Vec<WalRow> = Vec::new();
        core::mem::swap(&mut work_wals, &mut self.wals);
        let ghost all_wals = work_wals@;
        proof {
            reveal(Seq::filter);
            assert(all_wals.subrange(0, all_wals.len() as int) =~= all_wals);
            assert(Seq::<WalRow>::empty().filter(keep_wal(orig.tables@, sid)) =~= Seq::<
                WalRow,
            >::empty());
        }
        while work_wals.len() > 0
            invariant
                work_wals@.len() <= all_wals.len(),
                work_wals@ == all_wals.subrange(all_wals.len() - work_wals@.len(), all_wals.len() as int),
                self.wals@ == all_wals.subrange(0, all_wals.len() - work_wals@.len()).filter(
                    keep_wal(orig.tables@, sid),
                ),
                self.tables@ == orig.tables@,
                self.schemas@ == orig.schemas@,
                self.indexes@ == orig.indexes@,
                self.partitions@ == orig.partitions@,
                self.next_schema_id == orig.next_schema_id,
                self.next_table_id == orig.next_table_id,
                self.next_index_id == orig.next_index_id,
                self.next_wal_id == orig.next_wal_id,
                self.next_partition_id == orig.next_partition_id,
            decreases work_wals@.len(),
        {
            let ghost k = all_wals.len() - work_wals@.len();
            proof {
                assert(work_wals@[0] == all_wals[k]);
            }
            let w = work_wals.remove(0);
            let keep = !self.check_table_in_schema(w.table_id, sid);
            proof {
                reveal(Seq::filter);
                assert(all_wals.subrange(0, k + 1).drop_last() =~= all_wals.subrange(0, k));
                assert(all_wals.subrange(0, k + 1).last() == all_wals[k]);
            }
            if keep {
                self.wals.push(w);
            }
            proof {
                assert(work_wals@ =~= all_wals.subrange(all_wals.len() - work_wals@.len(), all_wals.len() as int));
            }
        }
        proof {
            assert(all_wals.subrange(0, all_wals.len() as int) =~= all_wals);
        }

        // Indexes of the schema's tables.
        let mut work_ix: Vec<IndexRow> = Vec::new();
        core::mem::swap(&mut work_ix, &mut self.indexes);
        let ghost all_ix = work_ix@;
        proof {
            reveal(Seq::filter);
            assert(Seq::<IndexRow>::empty().filter(keep_index(orig.tables@, sid)) =~= Seq::<
                IndexRow,
            >::empty());
        }
        while work_ix.len() > 0
            invariant
                work_ix@.len() <= all_ix.len(),
                work_ix@ == all_ix.subrange(all_ix.len() - work_ix@.len(), all_ix.len() as int),
                self.indexes@ == all_ix.subrange(0, all_ix.len() - work_ix@.len()).filter(
                    keep_index(orig.tables@, sid),
                ),
                self.tables@ == orig.tables@,
                self.schemas@ == orig.schemas@,
                self.partitions@ == orig.partitions@,
                self.wals@ == all_wals.filter(keep_wal(orig.tables@, sid)),
                self.next_schema_id == orig.next_schema_id,
                self.next_table_id == orig.next_table_id,
                self.next_index_id == orig.next_index_id,
                self.next_wal_id == orig.next_wal_id,
                self.next_partition_id == orig.next_partition_id,
            decreases work_ix@.len(),
        {
            let ghost k = all_ix.len() - work_ix@.len();
            proof {
                assert(work_ix@[0] == all_ix[k]);
            }
            let x = work_ix.remove(0);
            let keep = !self.check_table_in_schema(x.table_id, sid);
            proof {
                reveal(Seq::filter);
                assert(all_ix.subrange(0, k + 1).drop_last() =~= all_ix.subrange(0, k));
                assert(all_ix.subrange(0, k + 1).last() == all_ix[k]);
            }
            if keep {
                self.indexes.push(x);
            }
            proof {
                assert(work_ix@ =~= all_ix.subrange(all_ix.len() - work_ix@.len(), all_ix.len() as int));
            }
        }
        proof {
            assert(all_ix.subrange(0, all_ix.len() as int) =~= all_ix);
        }

        // Partitions of the schema's tables.
        let mut work_p: Vec<PartitionRow> = Vec::new();
        core::mem::swap(&mut work_p, &mut self.partitions);
        let ghost all_p = work_p@;
        proof {
            reveal(Seq::filter);
            assert(Seq::<PartitionRow>::empty().filter(keep_partition(orig.tables@, sid))
                =~= Seq::<PartitionRow>::empty());
        }
        while work_p.len() > 0
            invariant
                work_p@.len() <= all_p.len(),
                work_p@ == all_p.subrange(all_p.len() - work_p@.len(), all_p.len() as int),
                self.partitions@ == all_p.subrange(0, all_p.len() - work_p@.len()).filter(
                    keep_partition(orig.tables@, sid),
                ),
                self.tables@ == orig.tables@,
                self.schemas@ == orig.schemas@,
                self.wals@ == all_wals.filter(keep_wal(orig.tables@, sid)),
                self.indexes@ == all_ix.filter(keep_index(orig.tables@, sid)),
                self.next_schema_id == orig.next_schema_id,
                self.next_table_id == orig.next_table_id,
                self.next_index_id == orig.next_index_id,
                self.next_wal_id == orig.next_wal_id,
                self.next_partition_id == orig.next_partition_id,
            decreases work_p@.len(),
        {
            let ghost k = all_p.len() - work_p@.len();
            proof {
                assert(work_p@[0] == all_p[k]);
            }
            let p = work_p.remove(0);
            let keep = !self.check_table_in_schema(p.table_id, sid);
            proof {
                reveal(Seq::filter);
                assert(all_p.subrange(0, k + 1).drop_last() =~= all_p.subrange(0, k));
                assert(all_p.subrange(0, k + 1).last() == all_p[k]);
            }
            if keep {
                self.partitions.push(p);
            }
            proof {
                assert(work_p@ =~= all_p.subrange(all_p.len() - work_p@.len(), all_p.len() as int));
            }
        }
        proof {
            assert(all_p.subrange(0, all_p.len() as int) =~= all_p);
        }

        // The schema's tables.
        let mut work_t: Vec<TableRow> = Vec::new();
        core::mem::swap(&mut work_t, &mut self.tables);
        let ghost all_t = work_t@;
        proof {
            reveal(Seq::filter);
            assert(all_t == orig.tables@);
            assert(Seq::<TableRow>::empty().filter(keep_table(sid)) =~= Seq::<
                TableRow,
            >::empty());
        }
        while work_t.len() > 0
            invariant
                work_t@.len() <= all_t.len(),
                work_t@ == all_t.subrange(all_t.len() - work_t@.len(), all_t.len() as int),
                self.tables@ == all_t.subrange(0, all_t.len() - work_t@.len()).filter(
                    keep_table(sid),
                ),
                all_t == orig.tables@,
                self.schemas@ == orig.schemas@,
                self.wals@ == all_wals.filter(keep_wal(orig.tables@, sid)),
                self.indexes@ == all_ix.filter(keep_index(orig.tables@, sid)),
                self.partitions@ == all_p.filter(keep_partition(orig.tables@, sid)),
                self.next_schema_id == orig.next_schema_id,
                self.next_table_id == orig.next_table_id,
                self.next_index_id == orig.next_index_id,
                self.next_wal_id == orig.next_wal_id,
                self.next_partition_id == orig.next_partition_id,
            decreases work_t@.len(),
        {
            let ghost k = all_t.len() - work_t@.len();
            proof {
                assert(work_t@[0] == all_t[k]);
            }
            let t = work_t.remove(0);
            let keep = t.schema_id != sid;
            proof {
                reveal(Seq::filter);
                assert(all_t.subrange(0, k + 1).drop_last() =~= all_t.subrange(0, k));
                assert(all_t.subrange(0, k + 1).last() == all_t[k]);
            }
            if keep {
                self.tables.push(t);
            }
            proof {
                assert(work_t@ =~= all_t.subrange(all_t.len() - work_t@.len(), all_t.len() as int));
            }
        }
        proof {
            assert(all_t.subrange(0, all_t.len() as int) =~= all_t);
        }

        // The schema row itself.
        let mut work_s: Vec<SchemaRow> = Vec::new();
        core::mem::swap(&mut work_s, &mut self.schemas);
        let ghost all_s = work_s@;
        proof {
            reveal(Seq::filter);
            assert(all_s == orig.schemas@);
            assert(Seq::<SchemaRow>::empty().filter(keep_schema(schema_name@)) =~= Seq::<
                SchemaRow,
            >::empty());
        }
        while work_s.len() > 0
            invariant
                work_s@.len() <= all_s.len(),
                work_s@ == all_s.subrange(all_s.len() - work_s@.len(), all_s.len() as int),
                self.schemas@ == all_s.subrange(0, all_s.len() - work_s@.len()).filter(
                    keep_schema(schema_name@),
                ),
                all_s == orig.schemas@,
                self.tables@ == orig.tables@.filter(keep_table(sid)),
                self.wals@ == all_wals.filter(keep_wal(orig.tables@, sid)),
                self.indexes@ == all_ix.filter(keep_index(orig.tables@, sid)),
                self.partitions@ == all_p.filter(keep_partition(orig.tables@, sid)),
                self.next_schema_id == orig.next_schema_id,
                self.next_table_id == orig.next_table_id,
                self.next_index_id == orig.next_index_id,
                self.next_wal_id == orig.next_wal_id,
                self.next_partition_id == orig.next_partition_id,
            decreases work_s@.len(),
        {
            let ghost k = all_s.len() - work_s@.len();
            proof {
                assert(work_s@[0] == all_s[k]);
            }
            let srow = work_s.remove(0);
            let keep = !srow.name.eq(schema_name);
            proof {
                reveal(Seq::filter);
                assert(all_s.subrange(0, k + 1).drop_last() =~= all_s.subrange(0, k));
                assert(all_s.subrange(0, k + 1).last() == all_s[k]);
            }
            if keep {
                self.schemas.push(srow);
            }
            proof {
                assert(work_s@ =~= all_s.subrange(all_s.len() - work_s@.len(), all_s.len() as int));
            }
        }
        proof {
            assert(all_s.subrange(0, all_s.len() as int) =~= all_s);
            lemma_filters_preserve_wf(orig, *self, sid, schema_name@);
            assert(!has_schema(self.schemas@, schema_name@)) by {
                if has_schema(self.schemas@, schema_name@) {
                    let i = choose|i: int|
                        0 <= i < self.schemas@.len() && (#[trigger] self.schemas@[i]).name@
                            == schema_name@;
                    orig.schemas@.lemma_filter_pred(keep_schema(schema_name@), i);
                }
            }
        }
        Ok(())
    }
}

/// A filtered sequence consists of elements of the original, in order: each
/// kept element comes from the original, and any relation that held of every
/// earlier/later pair still holds within the filtered sequence.
pub proof fn lemma_filter_keeps_pairs<A>(s: Seq<A>, pred: spec_fn(A) -> bool, rel: spec_fn(A, A) -> bool)
    requires
        forall|i: int, j: int| 0 <= i < j < s.len() ==> rel(s[i], s[j]),
    ensures
        forall|i: int|
            0 <= i < s.filter(pred).len() ==> exists|i0: int|
                0 <= i0 < s.len() && s[i0] == #[trigger] s.filter(pred)[i],
        forall|i: int, j: int|
            0 <= i < j < s.filter(pred).len() ==> rel(
                #[trigger] s.filter(pred)[i],
                #[trigger] s.filter(pred)[j],
            ),
    decreases s.len(),
{
    reveal(Seq::filter);
    if s.len() > 0 {
        let d = s.drop_last();
        lemma_filter_keeps_pairs(d, pred, rel);
        let fd = d.filter(pred);
        let f = s.filter(pred);
        assert forall|i: int| 0 <= i < f.len() implies exists|i0: int|
            0 <= i0 < s.len() && s[i0] == #[trigger] f[i] by {
            if pred(s.last()) && i == f.len() - 1 {
                assert(s[s.len() - 1] == f[i]);
            } else {
                assert(f[i] == fd[i]);
                let i0 = choose|i0: int| 0 <= i0 < d.len() && d[i0] == fd[i];
                assert(s[i0] == f[i]);
            }
        }
        assert forall|i: int, j: int| 0 <= i < j < f.len() implies rel(
            #[trigger] f[i],
            #[trigger] f[j],
        ) by {
            if pred(s.last()) && j == f.len() - 1 {
                assert(f[i] == fd[i]);
                let i0 = choose|i0: int| 0 <= i0 < d.len() && d[i0] == fd[i];
                assert(rel(s[i0], s[s.len() - 1]));
            } else {
                assert(f[i] == fd[i] && f[j] == fd[j]);
            }
        }
    }
}

/// Filtering every collection by the dropped schema keeps the store
/// well-formed.
pub proof fn lemma_filters_preserve_wf(a: MetaStore, b: MetaStore, sid: u64, schema_name: Seq<char>)
    requires
        a.wf(),
        b.schemas@ == a.schemas@.filter(keep_schema(schema_name)),
        b.tables@ == a.tables@.filter(keep_table(sid)),
        b.wals@ == a.wals@.filter(keep_wal(a.tables@, sid)),
        b.indexes@ == a.indexes@.filter(keep_index(a.tables@, sid)),
        b.partitions@ == a.partitions@.filter(keep_partition(a.tables@, sid)),
        b.next_schema_id == a.next_schema_id,
        b.next_table_id == a.next_table_id,
        b.next_index_id == a.next_index_id,
        b.next_wal_id == a.next_wal_id,
        b.next_partition_id == a.next_partition_id,
    ensures
        b.wf(),
{
    let keep_s = keep_schema(schema_name);
    let keep_t = keep_table(sid);
    let keep_w = keep_wal(a.tables@, sid);
    let keep_x = keep_index(a.tables@, sid);
    let keep_p = keep_partition(a.tables@, sid);
    lemma_filter_keeps_pairs(
        a.schemas@,
        keep_s,
        |x: SchemaRow, y: SchemaRow| x.id != y.id && x.name@ != y.name@,
    );
    lemma_filter_keeps_pairs(
        a.tables@,
        keep_t,
        |x: TableRow, y: TableRow| x.id != y.id && !(x.schema_id == y.schema_id && x.name@
            == y.name@),
    );
    lemma_filter_keeps_pairs(a.wals@, keep_w, |x: WalRow, y: WalRow| x.id != y.id);
    lemma_filter_keeps_pairs(a.indexes@, keep_x, |x: IndexRow, y: IndexRow| true);
    lemma_filter_keeps_pairs(a.partitions@, keep_p, |x: PartitionRow, y: PartitionRow| true);
    reveal(Seq::filter);
    assert forall|i: int| 0 <= i < b.schemas@.len() implies (#[trigger] b.schemas@[i]).id
        < b.next_schema_id by {
        let i0 = choose|i0: int| 0 <= i0 < a.schemas@.len() && a.schemas@[i0] == b.schemas@[i];
    }
    assert forall|i: int| 0 <= i < b.tables@.len() implies (#[trigger] b.tables@[i]).id
        < b.next_table_id && columns_well_indexed(b.tables@[i].columns@) by {
        let i0 = choose|i0: int| 0 <= i0 < a.tables@.len() && a.tables@[i0] == b.tables@[i];
        assert(a.tables@[i0].id < a.next_table_id);
        assert(columns_well_indexed(a.tables@[i0].columns@));
    }
    assert forall|i: int| 0 <= i < b.wals@.len() implies (#[trigger] b.wals@[i]).id
        < b.next_wal_id by {
        let i0 = choose|i0: int| 0 <= i0 < a.wals@.len() && a.wals@[i0] == b.wals@[i];
    }
    assert forall|i: int| 0 <= i < b.indexes@.len() implies (#[trigger] b.indexes@[i]).id
        < b.next_index_id by {
        let i0 = choose|i0: int| 0 <= i0 < a.indexes@.len() && a.indexes@[i0] == b.indexes@[i];
    }
    assert forall|i: int| 0 <= i < b.partitions@.len() implies (#[trigger] b.partitions@[i]).id
        < b.next_partition_id by {
        let i0 = choose|i0: int|
            0 <= i0 < a.partitions@.len() && a.partitions@[i0] == b.partitions@[i];
    }
    assert forall|i: int| 0 <= i < b.wals@.len() implies wal_has_table(
        b.tables@,
        #[trigger] b.wals@[i],
    ) by {
        let w = b.wals@[i];
        a.wals@.lemma_filter_pred(keep_w, i);
        let wi = choose|wi: int| 0 <= wi < a.wals@.len() && a.wals@[wi] == w;
        assert(a.wals@.contains(w));
        assert(wal_has_table(a.tables@, w));
        let t = choose|t: int|
            0 <= t < a.tables@.len() && (#[trigger] a.tables@[t]).id == w.table_id;
        assert(a.tables@[t].schema_id != sid) by {
            if a.tables@[t].schema_id == sid {
                assert(table_in_schema(a.tables@, w.table_id, sid));
            }
        }
        assert(a.tables@.filter(keep_t).contains(a.tables@[t])) by {
            a.tables@.lemma_filter_contains(keep_t, t);
        }
        let bt = choose|bt: int| 0 <= bt < b.tables@.len() && b.tables@[bt] == a.tables@[t];
        assert(b.tables@[bt].id == w.table_id);
    }
}

} // verus!

verus! {

/// Keep the tables other than this one.
pub open spec fn keep_other_tables(table_id: u64) -> spec_fn(TableRow) -> bool {
    |t: TableRow| t.id != table_id
}

/// Keep the WAL entries of other tables.
pub open spec fn keep_other_wals(table_id: u64) -> spec_fn(WalRow) -> bool {
    |w: WalRow| w.table_id != table_id
}

/// Keep the indexes of other tables.
pub open spec fn keep_other_indexes(table_id: u64) -> spec_fn(IndexRow) -> bool {
    |x: IndexRow| x.table_id != table_id
}

/// Keep the partitions of other tables.
pub open spec fn keep_other_partitions(table_id: u64) -> spec_fn(PartitionRow) -> bool {
    |p: PartitionRow| p.table_id != table_id
}

impl MetaStore {
    /// Drop the table with this id, cascading through its WAL entries,
    /// indexes and partitions.
    #[verifier::loop_isolation(false)]
    #[verifier::rlimit(60)]
    pub fn drop_table(&mut self, table_id: u64) -> (r: Result<(), CubeError>)
        requires
            old(self).wf(),
        ensures
            final(self).wf(),
            r is Ok <==> table_with_id(old(self).tables@, table_id),
            r is Ok ==> !table_with_id(final(self).tables@, table_id),
            r is Err ==> *final(self) == *old(self),
            r is Ok ==> {
                &&& final(self).schemas@ == old(self).schemas@
                &&& final(self).tables@ == old(self).tables@.filter(keep_other_tables(table_id))
                &&& final(self).wals@ == old(self).wals@.filter(keep_other_wals(table_id))
                &&& final(self).indexes@ == old(self).indexes@.filter(
                    keep_other_indexes(table_id),
                )
                &&& final(self).partitions@ == old(self).partitions@.filter(
                    keep_other_partitions(table_id),
                )
            },
            final(self).next_schema_id == old(self).next_schema_id,
            final(self).next_table_id == old(self).next_table_id,
            final(self).next_index_id == old(self).next_index_id,
            final(self).next_wal_id == old(self).next_wal_id,
            final(self).next_partition_id == old(self).next_partition_id,
    {
        if self.table_index(table_id).is_none() {
            return Err(
                CubeError::user(
                    String::from_str("Table ").concat(
                        crate::numbers::u64_to_string(table_id).as_str(),
                    ).concat(" is not found"),
                ),
            );
        }
        let ghost orig = *self;

        let mut work_wals: Vec<WalRow> = Vec::new();
        core::mem::swap(&mut work_wals, &mut self.wals);
        let ghost all_wals = work_wals@;
        proof {
            reveal(Seq::filter);
            assert(all_wals.subrange(0, all_wals.len() as int) =~= all_wals);
            assert(Seq::<WalRow>::empty().filter(keep_other_wals(table_id)) =~= Seq::<
                WalRow,
            >::empty());
        }
        while work_wals.len() > 0
            invariant
                work_wals@.len() <= all_wals.len(),
                work_wals@ == all_wals.subrange(
                    all_wals.len() - work_wals@.len(),
                    all_wals.len() as int,
                ),
                self.wals@ == all_wals.subrange(0, all_wals.len() - work_wals@.len()).filter(
                    keep_other_wals(table_id),
                ),
                self.tables@ == orig.tables@,
                self.schemas@ == orig.schemas@,
                self.indexes@ == orig.indexes@,
                self.partitions@ == orig.partitions@,
                self.next_schema_id == orig.next_schema_id,
                self.next_table_id == orig.next_table_id,
                self.next_index_id == orig.next_index_id,
                self.next_wal_id == orig.next_wal_id,
                self.next_partition_id == orig.next_partition_id,
            decreases work_wals@.len(),
        {
            let ghost k = all_wals.len() - work_wals@.len();
            proof {
                assert(work_wals@[0] == all_wals[k]);
            }
            let w = work_wals.remove(0);
            let keep = w.table_id != table_id;
            proof {
                reveal(Seq::filter);
                assert(all_wals.subrange(0, k + 1).drop_last() =~= all_wals.subrange(0, k));
                assert(all_wals.subrange(0, k + 1).last() == all_wals[k]);
            }
            if keep {
                self.wals.push(w);
            }
            proof {
                assert(work_wals@ =~= all_wals.subrange(
                    all_wals.len() - work_wals@.len(),
                    all_wals.len() as int,
                ));
            }
        }
        proof {
            assert(all_wals.subrange(0, all_wals.len() as int) =~= all_wals);
        }

        let mut work_ix: Vec<IndexRow> = Vec::new();
        core::mem::swap(&mut work_ix, &mut self.indexes);
        let ghost all_ix = work_ix@;
        proof {
            reveal(Seq::filter);
            assert(Seq::<IndexRow>::empty().filter(keep_other_indexes(table_id)) =~= Seq::<
                IndexRow,
            >::empty());
        }
        while work_ix.len() > 0
            invariant
                work_ix@.len() <= all_ix.len(),
                work_ix@ == all_ix.subrange(all_ix.len() - work_ix@.len(), all_ix.len() as int),
                self.indexes@ == all_ix.subrange(0, all_ix.len() - work_ix@.len()).filter(
                    keep_other_indexes(table_id),
                ),
                self.tables@ == orig.tables@,
                self.schemas@ == orig.schemas@,
                self.partitions@ == orig.partitions@,
                self.wals@ == all_wals.filter(keep_other_wals(table_id)),
                self.next_schema_id == orig.next_schema_id,
                self.next_table_id == orig.next_table_id,
                self.next_index_id == orig.next_index_id,
                self.next_wal_id == orig.next_wal_id,
                self.next_partition_id == orig.next_partition_id,
            decreases work_ix@.len(),
        {
            let ghost k = all_ix.len() - work_ix@.len();
            proof {
                assert(work_ix@[0] == all_ix[k]);
            }
            let x = work_ix.remove(0);
            let keep = x.table_id != table_id;
            proof {
                reveal(Seq::filter);
                assert(all_ix.subrange(0, k + 1).drop_last() =~= all_ix.subrange(0, k));
                assert(all_ix.subrange(0, k + 1).last() == all_ix[k]);
            }
            if keep {
                self.indexes.push(x);
            }
            proof {
                assert(work_ix@ =~= all_ix.subrange(
                    all_ix.len() - work_ix@.len(),
                    all_ix.len() as int,
                ));
            }
        }
        proof {
            assert(all_ix.subrange(0, all_ix.len() as int) =~= all_ix);
        }

        let mut work_p: Vec<PartitionRow> = Vec::new();
        core::mem::swap(&mut work_p, &mut self.partitions);
        let ghost all_p = work_p@;
        proof {
            reveal(Seq::filter);
            assert(Seq::<PartitionRow>::empty().filter(keep_other_partitions(table_id)) =~= Seq::<
                PartitionRow,
            >::empty());
        }
        while work_p.len() > 0
            invariant
                work_p@.len() <= all_p.len(),
                work_p@ == all_p.subrange(all_p.len() - work_p@.len(), all_p.len() as int),
                self.partitions@ == all_p.subrange(0, all_p.len() - work_p@.len()).filter(
                    keep_other_partitions(table_id),
                ),
                self.tables@ == orig.tables@,
                self.schemas@ == orig.schemas@,
                self.wals@ == all_wals.filter(keep_other_wals(table_id)),
                self.indexes@ == all_ix.filter(keep_other_indexes(table_id)),
                self.next_schema_id == orig.next_schema_id,
                self.next_table_id == orig.next_table_id,
                self.next_index_id == orig.next_index_id,
                self.next_wal_id == orig.next_wal_id,
                self.next_partition_id == orig.next_partition_id,
            decreases work_p@.len(),
        {
            let ghost k = all_p.len() - work_p@.len();
            proof {
                assert(work_p@[0] == all_p[k]);
            }
            let p = work_p.remove(0);
            let keep = p.table_id != table_id;
            proof {
                reveal(Seq::filter);
                assert(all_p.subrange(0, k + 1).drop_last() =~= all_p.subrange(0, k));
                assert(all_p.subrange(0, k + 1).last() == all_p[k]);
            }
            if keep {
                self.partitions.push(p);
            }
            proof {
                assert(work_p@ =~= all_p.subrange(
                    all_p.len() - work_p@.len(),
                    all_p.len() as int,
                ));
            }
        }
        proof {
            assert(all_p.subrange(0, all_p.len() as int) =~= all_p);
        }

        let mut work_t: Vec<TableRow> = Vec::new();
        core::mem::swap(&mut work_t, &mut self.tables);
        let ghost all_t = work_t@;
        proof {
            reveal(Seq::filter);
            assert(all_t == orig.tables@);
            assert(Seq::<TableRow>::empty().filter(keep_other_tables(table_id)) =~= Seq::<
                TableRow,
            >::empty());
        }
        while work_t.len() > 0
            invariant
                work_t@.len() <= all_t.len(),
                work_t@ == all_t.subrange(all_t.len() - work_t@.len(), all_t.len() as int),
                self.tables@ == all_t.subrange(0, all_t.len() - work_t@.len()).filter(
                    keep_other_tables(table_id),
                ),
                all_t == orig.tables@,
                self.schemas@ == orig.schemas@,
                self.wals@ == all_wals.filter(keep_other_wals(table_id)),
                self.indexes@ == all_ix.filter(keep_other_indexes(table_id)),
                self.partitions@ == all_p.filter(keep_other_partitions(table_id)),
                self.next_schema_id == orig.next_schema_id,
                self.next_table_id == orig.next_table_id,
                self.next_index_id == orig.next_index_id,
                self.next_wal_id == orig.next_wal_id,
                self.next_partition_id == orig.next_partition_id,
            decreases work_t@.len(),
        {
            let ghost k = all_t.len() - work_t@.len();
            proof {
                assert(work_t@[0] == all_t[k]);
            }
            let t = work_t.remove(0);
            let keep = t.id != table_id;
            proof {
                reveal(Seq::filter);
                assert(all_t.subrange(0, k + 1).drop_last() =~= all_t.subrange(0, k));
                assert(all_t.subrange(0, k + 1).last() == all_t[k]);
            }
            if keep {
                self.tables.push(t);
            }
            proof {
                assert(work_t@ =~= all_t.subrange(
                    all_t.len() - work_t@.len(),
                    all_t.len() as int,
                ));
            }
        }
        proof {
            assert(all_t.subrange(0, all_t.len() as int) =~= all_t);
            lemma_drop_table_wf(orig, *self, table_id);
            assert(!table_with_id(self.tables@, table_id)) by {
                if table_with_id(self.tables@, table_id) {
                    let i = choose|i: int|
                        0 <= i < self.tables@.len() && (#[trigger] self.tables@[i]).id == table_id;
                    orig.tables@.lemma_filter_pred(keep_other_tables(table_id), i);
                }
            }
        }
        Ok(())
    }
}

/// Filtering every collection by the dropped table keeps the store
/// well-formed.
pub proof fn lemma_drop_table_wf(a: MetaStore, b: MetaStore, table_id: u64)
    requires
        a.wf(),
        b.schemas@ == a.schemas@,
        b.tables@ == a.tables@.filter(keep_other_tables(table_id)),
        b.wals@ == a.wals@.filter(keep_other_wals(table_id)),
        b.indexes@ == a.indexes@.filter(keep_other_indexes(table_id)),
        b.partitions@ == a.partitions@.filter(keep_other_partitions(table_id)),
        b.next_schema_id == a.next_schema_id,
        b.next_table_id == a.next_table_id,
        b.next_index_id == a.next_index_id,
        b.next_wal_id == a.next_wal_id,
        b.next_partition_id == a.next_partition_id,
    ensures
        b.wf(),
{
    let keep_t = keep_other_tables(table_id);
    let keep_w = keep_other_wals(table_id);
    let keep_x = keep_other_indexes(table_id);
    let keep_p = keep_other_partitions(table_id);
    lemma_filter_keeps_pairs(
        a.tables@,
        keep_t,
        |x: TableRow, y: TableRow| x.id != y.id && !(x.schema_id == y.schema_id && x.name@
            == y.name@),
    );
    lemma_filter_keeps_pairs(a.wals@, keep_w, |x: WalRow, y: WalRow| x.id != y.id);
    lemma_filter_keeps_pairs(a.indexes@, keep_x, |x: IndexRow, y: IndexRow| true);
    lemma_filter_keeps_pairs(a.partitions@, keep_p, |x: PartitionRow, y: PartitionRow| true);
    reveal(Seq::filter);
    assert forall|i: int| 0 <= i < b.tables@.len() implies (#[trigger] b.tables@[i]).id
        < b.next_table_id && columns_well_indexed(b.tables@[i].columns@) by {
        let i0 = choose|i0: int| 0 <= i0 < a.tables@.len() && a.tables@[i0] == b.tables@[i];
        assert(a.tables@[i0].id < a.next_table_id);
        assert(columns_well_indexed(a.tables@[i0].columns@));
    }
    assert forall|i: int| 0 <= i < b.wals@.len() implies (#[trigger] b.wals@[i]).id
        < b.next_wal_id by {
        let i0 = choose|i0: int| 0 <= i0 < a.wals@.len() && a.wals@[i0] == b.wals@[i];
    }
    assert forall|i: int| 0 <= i < b.indexes@.len() implies (#[trigger] b.indexes@[i]).id
        < b.next_index_id by {
        let i0 = choose|i0: int| 0 <= i0 < a.indexes@.len() && a.indexes@[i0] == b.indexes@[i];
    }
    assert forall|i: int| 0 <= i < b.partitions@.len() implies (#[trigger] b.partitions@[i]).id
        < b.next_partition_id by {
        let i0 = choose|i0: int|
            0 <= i0 < a.partitions@.len() && a.partitions@[i0] == b.partitions@[i];
    }
    assert forall|i: int| 0 <= i < b.wals@.len() implies wal_has_table(
        b.tables@,
        #[trigger] b.wals@[i],
    ) by {
        let w = b.wals@[i];
        a.wals@.lemma_filter_pred(keep_w, i);
        let i0 = choose|i0: int| 0 <= i0 < a.wals@.len() && a.wals@[i0] == w;
        assert(wal_has_table(a.tables@, w));
        let t = choose|t: int|
            0 <= t < a.tables@.len() && (#[trigger] a.tables@[t]).id == w.table_id;
        assert(a.tables@[t].id != table_id);
        assert(a.tables@.filter(keep_t).contains(a.tables@[t])) by {
            a.tables@.lemma_filter_contains(keep_t, t);
        }
        let bt = choose|bt: int| 0 <= bt < b.tables@.len() && b.tables@[bt] == a.tables@[t];
        assert(b.tables@[bt].id == w.table_id);
    }
}

} // verus!

verus! {

/// After a table is dropped, no table of its name remains under its schema.
pub proof fn lemma_drop_table_removes_name(
    a: MetaStore,
    b: MetaStore,
    sid: u64,
    tid: u64,
    schema_name: Seq<char>,
    table_name: Seq<char>,
)
    requires
        a.wf(),
        schema_named(a.schemas@, schema_name, sid),
        exists|j: int|
            0 <= j < a.tables@.len() && (#[trigger] a.tables@[j]).schema_id == sid
                && a.tables@[j].name@ == table_name && a.tables@[j].id == tid,
        b.schemas@ == a.schemas@,
        b.tables@ == a.tables@.filter(keep_other_tables(tid)),
    ensures
        !some_table_named(b.schemas@, b.tables@, schema_name, table_name),
{
    lemma_named_schema_unique(a.schemas@, schema_name, sid);
    lemma_filter_keeps_pairs(
        a.tables@,
        keep_other_tables(tid),
        |x: TableRow, y: TableRow| true,
    );
    if some_table_named(b.schemas@, b.tables@, schema_name, table_name) {
        let (i, j): (int, int) = choose|i: int, j: int|
            {
                &&& 0 <= i < b.schemas@.len()
                &&& (#[trigger] b.schemas@[i]).name@ == schema_name
                &&& 0 <= j < b.tables@.len()
                &&& (#[trigger] b.tables@[j]).schema_id == b.schemas@[i].id
                &&& b.tables@[j].name@ == table_name
            };
        assert(schema_named(a.schemas@, schema_name, b.schemas@[i].id));
        assert(b.schemas@[i].id == sid);
        a.tables@.lemma_filter_pred(keep_other_tables(tid), j);
        assert(b.tables@[j].id != tid);
        let i0 = choose|i0: int| 0 <= i0 < a.tables@.len() && a.tables@[i0] == b.tables@[j];
        let j0 = choose|j0: int|
            0 <= j0 < a.tables@.len() && (#[trigger] a.tables@[j0]).schema_id == sid
                && a.tables@[j0].name@ == table_name && a.tables@[j0].id == tid;
        assert(i0 != j0);
        if i0 < j0 {
            assert(!(a.tables@[i0].schema_id == a.tables@[j0].schema_id && a.tables@[i0].name@
                == a.tables@[j0].name@));
        } else {
            assert(!(a.tables@[j0].schema_id == a.tables@[i0].schema_id && a.tables@[j0].name@
                == a.tables@[i0].name@));
        }
    }
}

} // verus!
