//! The SQL service: dispatch parsed statements over the metadata store,
//! drive WAL ingestion, and account for the background jobs whose completion
//! gates user-visible success. Waiting for the job bus itself suspends and
//! lives with the host; the service hands out the pending job set and
//! consumes the terminal events.
use vstd::prelude::*;
use vstd::string::*;

use crate::error::CubeError;
use crate::jobs::{spec_first_error, first_error, JobEvent};
use crate::metastore::{
    MetaStore, ImportFormat, IndexDef, WalRow, eq_schemas, eq_tables, eq_indexes, eq_wals, eq_partitions,
    has_schema, schema_named, some_table_named, table_named, columns_well_indexed,
};
use crate::table::{CellView, Column, ColumnType, DataFrame, Row, TableValue, duplicate_columns};
use crate::typemap::{ColumnDecl, convert_columns_type, decls_map, spec_map_type};
use crate::values::{CellPrep, SqlExpr, row_parses, spec_fill_row, parse_rows};

verus! {

broadcast use vstd::string::group_string_axioms;

/// The SQL service over the metadata store: the single mutable state, plus
/// the WAL chunk size that splits inserted row lists.
#[derive(Debug, Clone, PartialEq, Eq)]
pub struct SqlServiceImpl {
    pub store: MetaStore,
    pub wal_chunk_size: usize,
}

/// An ingest awaiting its `WalPartitioning` events: the row count to report
/// and the WAL entries whose completion gates success.
#[derive(Debug, Clone, PartialEq, Eq)]
pub struct PendingInsert {
    pub table_id: u64,
    pub row_count: u64,
    pub wal_ids: Vec<u64>,
}

/// Whether some column carries this name.
pub open spec fn has_col(cols: Seq<Column>, name: Seq<char>) -> bool {
    exists|t: int| 0 <= t < cols.len() && (#[trigger] cols[t]).spec_name() == name
}

/// The position of the first column carrying this name.
pub open spec fn first_col_index(cols: Seq<Column>, name: Seq<char>) -> int {
    choose|i: int|
        0 <= i < cols.len() && (#[trigger] cols[i]).spec_name() == name && (forall|t: int|
            0 <= t < i ==> (#[trigger] cols[t]).spec_name() != name)
}

/// Every named column is declared.
pub open spec fn all_cols_present(cols: Seq<Column>, names: Seq<String>) -> bool {
    forall|i: int| 0 <= i < names.len() ==> has_col(cols, (#[trigger] names[i])@)
}

/// The declared columns that an insert's column list names, in list order.
pub open spec fn resolved_cols(cols: Seq<Column>, names: Seq<String>) -> Seq<Column> {
    Seq::new(names.len(), |i: int| cols[first_col_index(cols, names[i]@)])
}

/// Every resolved column's declared position fits inside the named list, so
/// each parsed cell has a slot.
pub open spec fn cols_fit(cols: Seq<Column>) -> bool {
    forall|j: int| 0 <= j < cols.len() ==> (#[trigger] cols[j]).spec_index() < cols.len()
}

/// The number of chunks a row list of length `n` splits into under chunk
/// size `c`.
pub open spec fn spec_chunk_count(n: nat, c: nat) -> nat
    recommends
        c >= 1,
    decreases n,
{
    if c == 0 || n == 0 {
        0
    } else if n <= c {
        1
    } else {
        1 + spec_chunk_count((n - c) as nat, c)
    }
}

/// A row list never splits into more chunks than it has rows.
pub proof fn lemma_chunk_count_le(n: nat, c: nat)
    requires
        c >= 1,
    ensures
        spec_chunk_count(n, c) <= n,
    decreases n,
{
    if n > c {
        lemma_chunk_count_le((n - c) as nat, c);
    }
}

/// One frame of parsed rows, standing at `start` within the inserted data.
pub open spec fn frame_covers(
    df: DataFrame,
    data: Seq<Vec<SqlExpr>>,
    preps: Seq<Vec<CellPrep>>,
    cols: Seq<Column>,
    start: int,
) -> bool {
    &&& df.spec_columns() == cols
    &&& 0 <= start
    &&& start + df.spec_rows().len() <= data.len()
    &&& forall|o: int|
        0 <= o < df.spec_rows().len() ==> (#[trigger] df.spec_rows()[o]).view_cells()
            == spec_fill_row(
            data[start + o]@,
            cols,
            preps[start + o]@,
            data[start + o]@.len() as int,
        )
}

/// Find the first column carrying this name.
fn find_column(cols: &Vec<Column>, name: &String) -> (r: Option<usize>)
    ensures
        r is Some <==> has_col(cols@, name@),
        r matches Some(i) ==> 0 <= i < cols@.len() && i == first_col_index(cols@, name@)
            && cols@[i as int].spec_name() == name@,
{
    let mut i: usize = 0;
    while i < cols.len()
        invariant
            i <= cols@.len(),
            forall|t: int| 0 <= t < i ==> (#[trigger] cols@[t]).spec_name() != name@,
        decreases cols@.len() - i,
    {
        if cols[i].get_name().eq(name) {
            proof {
                let w = i as int;
                assert(0 <= w < cols@.len() && cols@[w].spec_name() == name@ && (forall|t: int|
                    0 <= t < w ==> (#[trigger] cols@[t]).spec_name() != name@));
                let j = first_col_index(cols@, name@);
                assert(0 <= j < cols@.len() && cols@[j].spec_name() == name@ && (forall|t: int|
                    0 <= t < j ==> (#[trigger] cols@[t]).spec_name() != name@));
                if j < w {
                    assert(cols@[j].spec_name() != name@);
                } else if w < j {
                    assert(cols@[w].spec_name() != name@);
                }
            }
            return Some(i);
        }
        i += 1;
    }
    None
}

/// Resolve an insert's named columns against a table's declared columns; a
/// name the table does not declare is a user error with its fixed message.
#[verifier::loop_isolation(false)]
#[verifier::rlimit(60)]
fn resolve_columns(
    cols: &Vec<Column>,
    names: &Vec<String>,
    schema_name: &String,
    table_name: &String,
) -> (r: Result<Vec<Column>, CubeError>)
    ensures
        r is Ok <==> all_cols_present(cols@, names@),
        r matches Ok(rc) ==> rc@ == resolved_cols(cols@, names@),
        r matches Err(e) ==> exists|i: int|
            0 <= i < names@.len() && !has_col(cols@, (#[trigger] names@[i])@) && e.message@
                == "Column "@ + names@[i]@ + " does noot present in table "@ + schema_name@ + "."@
                + table_name@ + "."@,
{
    let mut rc: Vec<Column> = Vec::new();
    let mut i: usize = 0;
    while i < names.len()
        invariant
            i <= names@.len(),
            rc@.len() == i,
            forall|t: int| 0 <= t < i ==> has_col(cols@, (#[trigger] names@[t])@),
            forall|t: int|
                0 <= t < i ==> #[trigger] rc@[t] == cols@[first_col_index(cols@, names@[t]@)],
        decreases names@.len() - i,
    {
        let name = &names[i];
        match find_column(cols, name) {
            Some(ci) => {
                rc.push(cols[ci].duplicate());
            },
            None => {
                return Err(
                    CubeError::user(
                        String::from_str("Column ").concat(name.as_str()).concat(
                            " does noot present in table ",
                        ).concat(schema_name.as_str()).concat(".").concat(
                            table_name.as_str(),
                        ).concat("."),
                    ),
                );
            },
        }
        i += 1;
    }
    proof {
        assert(rc@ =~= resolved_cols(cols@, names@));
    }
    Ok(rc)
}

impl SqlServiceImpl {
    /// The service is well-formed: its store is, and the chunk size splits.
    pub open spec fn wf(&self) -> bool {
        self.store.wf() && self.wal_chunk_size >= 1
    }

    /// A fresh service over an empty store.
    pub fn new(wal_chunk_size: usize) -> (s: SqlServiceImpl)
        requires
            wal_chunk_size >= 1,
        ensures
            s.wf(),
            s.wal_chunk_size == wal_chunk_size,
            s.store.schemas@.len() == 0,
            s.store.tables@.len() == 0,
            s.store.indexes@.len() == 0,
            s.store.wals@.len() == 0,
            s.store.partitions@.len() == 0,
            s.store.next_schema_id == 1,
            s.store.next_table_id == 1,
            s.store.next_index_id == 1,
            s.store.next_wal_id == 1,
            s.store.next_partition_id == 1,
    {
        SqlServiceImpl { store: MetaStore::new(), wal_chunk_size }
    }

    /// Split the inserted rows into WAL chunks, parse each into typed cells,
    /// and persist one WAL entry per chunk. Returns the pending ingest whose
    /// `WalPartitioning` events the caller must await. Nothing is persisted
    /// when any cell is rejected.
    #[verifier::loop_isolation(false)]
    #[verifier::rlimit(90)]
    pub fn insert_data(
        &mut self,
        schema_name: &String,
        table_name: &String,
        columns: &Vec<String>,
        data: &Vec<Vec<SqlExpr>>,
        preps: &Vec<Vec<CellPrep>>,
    ) -> (r: Result<PendingInsert, CubeError>)
        requires
            old(self).wf(),
            old(self).store.next_wal_id + data@.len() < u64::MAX,
            preps@.len() == data@.len(),
            forall|j: int|
                0 <= j < data@.len() ==> (#[trigger] preps@[j])@.len() == data@[j]@.len(),
            forall|j: int| 0 <= j < data@.len() ==> (#[trigger] data@[j])@.len() <= columns@.len(),
        ensures
            final(self).wf(),
            final(self).wal_chunk_size == old(self).wal_chunk_size,
            eq_schemas(old(self).store, final(self).store),
            eq_indexes(old(self).store, final(self).store),
            eq_partitions(old(self).store, final(self).store),
            old(self).store.next_table_id == final(self).store.next_table_id,
            old(self).store.next_wal_id <= final(self).store.next_wal_id <= old(self).store.next_wal_id + data@.len(),
            r is Err ==> *final(self) == *old(self),
            r matches Ok(p) ==> pending_wf(final(self).store, p),
            !has_schema(old(self).store.schemas@, schema_name@) ==> (r matches Err(e)
                && e.message@ == "Schema "@ + schema_name@ + " does not exist"@),
            forall|ti: int|
                (0 <= ti < old(self).store.tables@.len() && schema_named(
                    old(self).store.schemas@,
                    schema_name@,
                    (#[trigger] old(self).store.tables@[ti]).schema_id,
                ) && old(self).store.tables@[ti].name@ == table_name@ && !all_cols_present(
                    old(self).store.tables@[ti].columns@,
                    columns@,
                )) ==> (r matches Err(e) && exists|ci: int|
                    0 <= ci < columns@.len() && !has_col(
                        old(self).store.tables@[ti].columns@,
                        (#[trigger] columns@[ci])@,
                    ) && e.message@ == "Column "@ + columns@[ci]@
                        + " does noot present in table "@ + schema_name@ + "."@ + table_name@
                        + "."@),
            r is Err ==> ({
                ||| !has_schema(old(self).store.schemas@, schema_name@)
                ||| !some_table_named(
                    old(self).store.schemas@,
                    old(self).store.tables@,
                    schema_name@,
                    table_name@,
                )
                ||| exists|ti: int|
                    {
                        let rc = resolved_cols(
                            (#[trigger] old(self).store.tables@[ti]).columns@,
                            columns@,
                        );
                        &&& 0 <= ti < old(self).store.tables@.len()
                        &&& schema_named(
                            old(self).store.schemas@,
                            schema_name@,
                            old(self).store.tables@[ti].schema_id,
                        )
                        &&& old(self).store.tables@[ti].name@ == table_name@
                        &&& {
                            ||| !all_cols_present(old(self).store.tables@[ti].columns@, columns@)
                            ||| !cols_fit(rc)
                            ||| exists|j: int|
                                0 <= j < data@.len() && !row_parses(
                                    (#[trigger] data@[j])@,
                                    rc,
                                    preps@[j]@,
                                )
                        }
                    }
            }),
            r matches Ok(p) ==> {
                let n = data@.len() as int;
                let chunk = old(self).wal_chunk_size as int;
                let count = spec_chunk_count(data@.len(), old(self).wal_chunk_size as nat) as int;
                exists|ti: int|
                    {
                        let table = #[trigger] old(self).store.tables@[ti];
                        let rc = resolved_cols(table.columns@, columns@);
                        &&& 0 <= ti < old(self).store.tables@.len()
                        &&& schema_named(old(self).store.schemas@, schema_name@, table.schema_id)
                        &&& table.name@ == table_name@
                        &&& p.table_id == table.id
                        &&& all_cols_present(table.columns@, columns@)
                        &&& cols_fit(rc)
                        &&& (forall|j: int|
                            0 <= j < n ==> row_parses((#[trigger] data@[j])@, rc, preps@[j]@))
                        &&& p.row_count == n
                        &&& p.wal_ids@.len() == count
                        &&& count <= n
                        &&& (forall|k: int|
                            0 <= k < count ==> #[trigger] p.wal_ids@[k] == old(self).store.next_wal_id + k)
                        &&& final(self).store.wals@.len() == old(self).store.wals@.len() + count
                        &&& final(self).store.wals@.subrange(
                            0,
                            old(self).store.wals@.len() as int,
                        ) == old(self).store.wals@
                        &&& (forall|k: int|
                            0 <= k < count ==> {
                                let w = #[trigger] final(self).store.wals@[old(self).store.wals@.len() + k];
                                &&& w.id == old(self).store.next_wal_id + k
                                &&& w.table_id == p.table_id
                                &&& frame_covers(w.data, data@, preps@, rc, k * chunk)
                                &&& w.data.spec_rows().len() == (if n - k * chunk < chunk {
                                    n - k * chunk
                                } else {
                                    chunk
                                })
                            })
                        &&& int_sum(
                            wal_lens(
                                final(self).store.wals@.subrange(
                                    old(self).store.wals@.len() as int,
                                    old(self).store.wals@.len() + count,
                                ),
                            ),
                        ) == n
                        &&& final(self).store.next_wal_id == old(self).store.next_wal_id + count
                        &&& final(self).store.tables@.len() == old(self).store.tables@.len()
                        &&& (forall|t: int|
                            0 <= t < old(self).store.tables@.len() && t != ti ==> final(self).store.tables@[t] == old(self).store.tables@[t])
                        &&& final(self).store.tables@[ti].rows == table.rows
                        &&& final(self).store.tables@[ti].id == table.id
                        &&& final(self).store.tables@[ti].name == table.name
                        &&& final(self).store.tables@[ti].columns == table.columns
                        &&& (count > 0 ==> final(self).store.tables@[ti].has_data == true)
                        &&& (count == 0 ==> final(self).store.tables@[ti] == table)
                    }
            },
    {
        let sid: u64 = match self.store.find_schema(schema_name) {
            Some(row) => row.id,
            None => {
                proof {
                    assert forall|ti: int|
                        !(0 <= ti < self.store.tables@.len() && schema_named(
                            self.store.schemas@,
                            schema_name@,
                            (#[trigger] self.store.tables@[ti]).schema_id,
                        )) by {
                        if 0 <= ti < self.store.tables@.len() && schema_named(
                            self.store.schemas@,
                            schema_name@,
                            self.store.tables@[ti].schema_id,
                        ) {
                            let i = choose|i: int|
                                0 <= i < self.store.schemas@.len() && (
                                #[trigger] self.store.schemas@[i]).name@ == schema_name@
                                    && self.store.schemas@[i].id
                                    == self.store.tables@[ti].schema_id;
                            assert(has_schema(self.store.schemas@, schema_name@));
                        }
                    }
                }
                return Err(
                    CubeError::user(
                        String::from_str("Schema ").concat(schema_name.as_str()).concat(
                            " does not exist",
                        ),
                    ),
                );
            },
        };
        let (tid, tcols): (u64, Vec<Column>) = match self.store.find_table(sid, table_name) {
            Some(t) => (t.id, duplicate_columns(&t.columns)),
            None => {
                proof {
                    assert(schema_named(self.store.schemas@, schema_name@, sid));
                    crate::metastore::lemma_named_schema_unique(
                        self.store.schemas@,
                        schema_name@,
                        sid,
                    );
                    assert forall|tid2: u64, hd: bool|
                        !table_named(
                            self.store.schemas@,
                            self.store.tables@,
                            schema_name@,
                            table_name@,
                            tid2,
                            hd,
                        ) by {
                        if table_named(
                            self.store.schemas@,
                            self.store.tables@,
                            schema_name@,
                            table_name@,
                            tid2,
                            hd,
                        ) {
                            let (i, j): (int, int) = choose|i: int, j: int|
                                {
                                    &&& 0 <= i < self.store.schemas@.len()
                                    &&& (#[trigger] self.store.schemas@[i]).name@ == schema_name@
                                    &&& 0 <= j < self.store.tables@.len()
                                    &&& (#[trigger] self.store.tables@[j]).schema_id
                                        == self.store.schemas@[i].id
                                    &&& self.store.tables@[j].name@ == table_name@
                                };
                            assert(schema_named(
                                self.store.schemas@,
                                schema_name@,
                                self.store.schemas@[i].id,
                            ));
                            assert(crate::metastore::has_table(
                                self.store.tables@,
                                sid,
                                table_name@,
                            ));
                        }
                    }
                    assert forall|ti: int|
                        !(0 <= ti < self.store.tables@.len() && schema_named(
                            self.store.schemas@,
                            schema_name@,
                            (#[trigger] self.store.tables@[ti]).schema_id,
                        ) && self.store.tables@[ti].name@ == table_name@) by {
                        if 0 <= ti < self.store.tables@.len() && schema_named(
                            self.store.schemas@,
                            schema_name@,
                            self.store.tables@[ti].schema_id,
                        ) && self.store.tables@[ti].name@ == table_name@ {
                            assert(table_named(
                                self.store.schemas@,
                                self.store.tables@,
                                schema_name@,
                                table_name@,
                                self.store.tables@[ti].id,
                                self.store.tables@[ti].has_data,
                            ));
                        }
                    }
                }
                return Err(
                    CubeError::user(
                        String::from_str("Table ").concat(schema_name.as_str()).concat(
                            ".",
                        ).concat(table_name.as_str()).concat(" does not exist"),
                    ),
                );
            },
        };
        let ghost ti = choose|ti: int|
            0 <= ti < self.store.tables@.len() && #[trigger] self.store.tables@[ti].id == tid
                && self.store.tables@[ti].schema_id == sid && self.store.tables@[ti].name@
                == table_name@ && self.store.tables@[ti].columns@ == tcols@;
        proof {
            assert(schema_named(self.store.schemas@, schema_name@, sid));
            assert(columns_well_indexed(self.store.tables@[ti].columns@));
            crate::metastore::lemma_named_table_index_unique(
                self.store,
                schema_name@,
                sid,
                table_name@,
                ti,
            );
        }
        let rc = match resolve_columns(&tcols, columns, schema_name, table_name) {
            Ok(rc) => rc,
            Err(e) => {
                proof {
                    assert(!all_cols_present(self.store.tables@[ti].columns@, columns@));
                }
                return Err(e);
            },
        };
        // Every parsed cell must land inside the named list; a declared
        // position past its end has no slot.
        let mut j: usize = 0;
        while j < rc.len()
            invariant
                j <= rc@.len(),
                forall|t: int| 0 <= t < j ==> (#[trigger] rc@[t]).spec_index() < rc@.len(),
            decreases rc@.len() - j,
        {
            if rc[j].get_index() >= rc.len() {
                proof {
                    assert(!cols_fit(resolved_cols(self.store.tables@[ti].columns@, columns@)));
                }
                return Err(
                    CubeError::user(
                        String::from_str("Insert into ").concat(schema_name.as_str()).concat(
                            ".",
                        ).concat(table_name.as_str()).concat(
                            " must name every declared column before the ones it sets",
                        ),
                    ),
                );
            }
            j += 1;
        }
        let n = data.len();
        let chunk = self.wal_chunk_size;
        let ghost g_chunk = chunk as int;
        let ghost g_n = n as int;
        proof {
            lemma_chunk_count_le(g_n as nat, chunk as nat);
        }
        // Parse every chunk first: nothing is persisted when a cell fails.
        let mut frames: Vec<DataFrame> = Vec::new();
        let mut startp: usize = 0;
        proof {
            assert(frame_lens(frames@) =~= Seq::<int>::empty());
        }
        while startp < n
            invariant
                startp <= n,
                startp < n ==> startp == frames@.len() * g_chunk,
                startp == n ==> frames@.len() == spec_chunk_count(g_n as nat, chunk as nat),
                spec_chunk_count(g_n as nat, chunk as nat) == frames@.len() + spec_chunk_count(
                    (g_n - startp) as nat,
                    chunk as nat,
                ),
                forall|t: int|
                    0 <= t < frames@.len() ==> frame_covers(
                        #[trigger] frames@[t],
                        data@,
                        preps@,
                        rc@,
                        t * g_chunk,
                    ),
                forall|t: int|
                    0 <= t < frames@.len() ==> (#[trigger] frames@[t]).spec_rows().len() == (
                    if g_n - t * g_chunk < g_chunk {
                        g_n - t * g_chunk
                    } else {
                        g_chunk
                    }),
                int_sum(frame_lens(frames@)) == startp,
                forall|j2: int|
                    0 <= j2 < startp ==> row_parses((#[trigger] data@[j2])@, rc@, preps@[j2]@),
            decreases n - startp,
        {
            let end = if n - startp < chunk {
                n
            } else {
                startp + chunk
            };
            let df = match parse_rows(data, preps, &rc, startp, end) {
                Ok(df) => df,
                Err(e) => {
                    proof {
                        assert(!(forall|j2: int|
                            0 <= j2 < g_n ==> row_parses(
                                (#[trigger] data@[j2])@,
                                rc@,
                                preps@[j2]@,
                            )));
                        let j2 = choose|j2: int|
                            0 <= j2 < g_n && !row_parses(
                                (#[trigger] data@[j2])@,
                                rc@,
                                preps@[j2]@,
                            );
                        assert(!row_parses(
                            data@[j2]@,
                            resolved_cols(self.store.tables@[ti].columns@, columns@),
                            preps@[j2]@,
                        ));
                    }
                    return Err(e);
                },
            };
            let ghost fk = frames@.len() as int;
            let ghost pre_frames = frames@;
            frames.push(df);
            proof {
                assert(frame_lens(frames@) =~= frame_lens(pre_frames).push(
                    df.spec_rows().len() as int,
                ));
                assert(frame_lens(frames@).drop_last() =~= frame_lens(pre_frames));
                assert(frame_lens(frames@).last() == df.spec_rows().len() as int);
                assert(int_sum(frame_lens(frames@)) == int_sum(frame_lens(pre_frames))
                    + df.spec_rows().len());
                assert((fk + 1) * g_chunk == fk * g_chunk + g_chunk) by (nonlinear_arith);
                assert(startp == fk * g_chunk);
                assert forall|o: int|
                    0 <= o < df.spec_rows().len() implies (
                #[trigger] df.spec_rows()[o]).view_cells() == spec_fill_row(
                    data@[fk * g_chunk + o]@,
                    rc@,
                    preps@[fk * g_chunk + o]@,
                    data@[fk * g_chunk + o]@.len() as int,
                ) by {
                    let j2 = startp + o;
                    assert(df.spec_rows()[j2 - startp].view_cells() == spec_fill_row(
                        data@[j2]@,
                        rc@,
                        preps@[j2]@,
                        data@[j2]@.len() as int,
                    ));
                }
                assert(frame_covers(df, data@, preps@, rc@, fk * g_chunk));
                assert(spec_chunk_count((g_n - startp) as nat, chunk as nat) == 1
                    + spec_chunk_count((g_n - end) as nat, chunk as nat));
            }
            startp = end;
        }
        // Persist one WAL entry per chunk.
        let ghost store0 = self.store;
        let ghost all_frames = frames@;
        let ghost count = all_frames.len() as int;
        let mut work = frames;
        let mut wal_ids: Vec<u64> = Vec::new();
        let mut k: usize = 0;
        proof {
            assert(work@ =~= all_frames.subrange(0, count));
        }
        while work.len() > 0
            invariant
                k + work@.len() == count,
                work@ == all_frames.subrange(k as int, count),
                self.wal_chunk_size == old(self).wal_chunk_size,
                eq_schemas(store0, self.store),
                eq_indexes(store0, self.store),
                eq_partitions(store0, self.store),
                self.store.wf(),
                wal_ids@.len() == k,
                forall|t: int| 0 <= t < k ==> #[trigger] wal_ids@[t] == store0.next_wal_id + t,
                self.store.next_wal_id == store0.next_wal_id + k,
                self.store.wals@.len() == store0.wals@.len() + k,
                self.store.wals@.subrange(0, store0.wals@.len() as int) == store0.wals@,
                forall|t: int|
                    0 <= t < k ==> {
                        let w = #[trigger] self.store.wals@[store0.wals@.len() + t];
                        &&& w.id == store0.next_wal_id + t
                        &&& w.table_id == tid
                        &&& w.data == all_frames[t]
                    },
                self.store.next_table_id == store0.next_table_id,
                self.store.tables@.len() == store0.tables@.len(),
                forall|t: int|
                    0 <= t < store0.tables@.len() && t != ti ==> #[trigger] self.store.tables@[t]
                        == store0.tables@[t],
                self.store.tables@[ti].rows == store0.tables@[ti].rows,
                self.store.tables@[ti].id == store0.tables@[ti].id,
                self.store.tables@[ti].schema_id == store0.tables@[ti].schema_id,
                self.store.tables@[ti].name == store0.tables@[ti].name,
                self.store.tables@[ti].columns == store0.tables@[ti].columns,
                self.store.tables@[ti].location == store0.tables@[ti].location,
                self.store.tables@[ti].import_format == store0.tables@[ti].import_format,
                k > 0 ==> self.store.tables@[ti].has_data == true,
                k == 0 ==> self.store.tables@[ti] == store0.tables@[ti],
            decreases work@.len(),
        {
            proof {
                assert(work@[0] == all_frames[k as int]);
            }
            let df = work.remove(0);
            let ghost pre = self.store;
            let id = match self.store.add_wal(tid, df) {
                Ok(id) => id,
                Err(e) => {
                    proof {
                        assert(self.store.tables@[ti].id == tid);
                        assert(false);
                    }
                    return Err(e);
                },
            };
            wal_ids.push(id);
            proof {
                assert forall|t: int|
                    0 <= t < k + 1 implies {
                    let w = #[trigger] self.store.wals@[store0.wals@.len() + t];
                    &&& w.id == store0.next_wal_id + t
                    &&& w.table_id == tid
                    &&& w.data == all_frames[t]
                } by {
                    if t < k {
                        assert(self.store.wals@.subrange(0, pre.wals@.len() as int)[store0.wals@.len()
                            + t] == pre.wals@[store0.wals@.len() + t]);
                    } else {
                        assert(self.store.wals@[store0.wals@.len() + t] == self.store.wals@.last());
                    }
                }
                assert(self.store.wals@.subrange(0, store0.wals@.len() as int) =~= store0.wals@);
                assert(work@ =~= all_frames.subrange(k + 1, count));
            }
            k += 1;
        }
        let row_count = n as u64;
        let p = PendingInsert { table_id: tid, row_count, wal_ids };
        proof {
            assert(g_n <= u64::MAX);
            let new_wals = self.store.wals@.subrange(
                store0.wals@.len() as int,
                store0.wals@.len() + count,
            );
            assert(wal_lens(new_wals) =~= frame_lens(all_frames)) by {
                assert forall|t: int|
                    0 <= t < count implies wal_lens(new_wals)[t] == frame_lens(
                    all_frames,
                )[t] by {
                    assert(new_wals[t] == self.store.wals@[store0.wals@.len() + t]);
                    assert(new_wals[t].data == all_frames[t]);
                }
            }
            assert forall|k2: int| 0 <= k2 < p.wal_ids@.len() implies #[trigger] wal_owned_by(
                self.store,
                p.wal_ids@[k2],
                p.table_id,
            ) by {
                let w = store0.wals@.len() + k2;
                assert(self.store.wals@[w].id == p.wal_ids@[k2]);
                assert(self.store.wals@[w].table_id == tid);
            }
        }
        Ok(p)
    }
}

} // verus!

verus! {

/// The sum of a sequence of integers.
pub open spec fn int_sum(s: Seq<int>) -> int
    decreases s.len(),
{
    if s.len() == 0 {
        0
    } else {
        int_sum(s.drop_last()) + s.last()
    }
}

/// The row counts of a list of frames.
pub open spec fn frame_lens(frames: Seq<DataFrame>) -> Seq<int> {
    frames.map_values(|df: DataFrame| df.spec_rows().len() as int)
}

/// The row counts of a list of WAL entries.
pub open spec fn wal_lens(wals: Seq<WalRow>) -> Seq<int> {
    wals.map_values(|w: WalRow| w.data.spec_rows().len() as int)
}

/// The row counts of the frames held by the WAL entries carrying these ids.
pub open spec fn pending_lens(store: MetaStore, ids: Seq<u64>) -> Seq<int> {
    ids.map_values(
        |id: u64|
            {
                let w = choose|w: int|
                    0 <= w < store.wals@.len() && (#[trigger] store.wals@[w]).id == id;
                store.wals@[w].data.spec_rows().len() as int
            },
    )
}

/// A WAL entry with this id is present and owned by this table.
pub open spec fn wal_owned_by(store: MetaStore, id: u64, table_id: u64) -> bool {
    exists|w: int|
        0 <= w < store.wals@.len() && (#[trigger] store.wals@[w]).id == id
            && store.wals@[w].table_id == table_id
}

/// The pending ingest matches the store: each awaited WAL entry exists, all
/// belong to the pending table, and the ids are distinct.
pub open spec fn pending_wf(store: MetaStore, p: PendingInsert) -> bool {
    &&& forall|k: int|
        0 <= k < p.wal_ids@.len() ==> #[trigger] wal_owned_by(store, p.wal_ids@[k], p.table_id)
    &&& forall|k1: int, k2: int|
        0 <= k1 < k2 < p.wal_ids@.len() ==> p.wal_ids@[k1] != p.wal_ids@[k2]
}

/// An ingest's pending WAL entries hold exactly the rows the ingest wrote:
/// the per-id row counts looked up in the store are the counts of the newly
/// appended entries, so their sum is the inserted row count. Together with
/// the contracts of `insert_data` (which returns the inserted row count and
/// appends entries summing to it) and `finish_insert` (which grows the
/// table's stored rows by that sum), this says that an `INSERT` of N rows
/// across K chunks reports N and lands exactly N rows.
pub proof fn lemma_insert_landing(
    store: MetaStore,
    p: PendingInsert,
    n: int,
    old_wals_len: int,
    count: int,
)
    requires
        store.wf(),
        0 <= old_wals_len,
        0 <= count,
        old_wals_len + count == store.wals@.len(),
        p.wal_ids@.len() == count,
        forall|k: int|
            0 <= k < count ==> (#[trigger] store.wals@[old_wals_len + k]).id == p.wal_ids@[k],
        int_sum(wal_lens(store.wals@.subrange(old_wals_len, old_wals_len + count))) == n,
    ensures
        int_sum(pending_lens(store, p.wal_ids@)) == n,
{
    let lens = wal_lens(store.wals@.subrange(old_wals_len, old_wals_len + count));
    assert forall|k: int| 0 <= k < count implies pending_lens(store, p.wal_ids@)[k] == lens[k] by {
        let id = p.wal_ids@[k];
        assert(store.wals@[old_wals_len + k].id == id);
        let w = choose|w: int| 0 <= w < store.wals@.len() && (#[trigger] store.wals@[w]).id == id;
        if w != old_wals_len + k {
            if w < old_wals_len + k {
                assert(store.wals@[w].id != store.wals@[old_wals_len + k].id);
            } else {
                assert(store.wals@[old_wals_len + k].id != store.wals@[w].id);
            }
        }
    }
    assert(pending_lens(store, p.wal_ids@) =~= lens);
}

impl SqlServiceImpl {
    /// Consume the terminal `WalPartitioning` events of a pending ingest.
    /// The earliest error event fails the whole insert with its message; with
    /// every event a success, each awaited WAL entry lands in its table and
    /// the reported count is the ingest's row count.
    #[verifier::loop_isolation(false)]
    #[verifier::rlimit(90)]
    pub fn finish_insert(&mut self, pending: &PendingInsert, events: &Vec<JobEvent>) -> (r: Result<
        u64,
        CubeError,
    >)
        requires
            old(self).wf(),
            pending_wf(old(self).store, *pending),
            old(self).store.next_partition_id + pending.wal_ids@.len() < u64::MAX,
        ensures
            final(self).wf(),
            final(self).wal_chunk_size == old(self).wal_chunk_size,
            final(self).store.next_schema_id == old(self).store.next_schema_id,
            final(self).store.next_table_id == old(self).store.next_table_id,
            final(self).store.next_index_id == old(self).store.next_index_id,
            final(self).store.next_wal_id == old(self).store.next_wal_id,
            old(self).store.next_partition_id <= final(self).store.next_partition_id <= old(self).store.next_partition_id + pending.wal_ids@.len(),
            r is Ok <==> spec_first_error(events@) is None,
            r matches Err(e) ==> *final(self) == *old(self) && e.message@ == "Insert job failed: "@
                + spec_first_error(events@)->0,
            r matches Ok(cnt) ==> {
                &&& cnt == pending.row_count
                &&& eq_schemas(old(self).store, final(self).store)
                &&& eq_indexes(old(self).store, final(self).store)
                &&& final(self).store.wals@.len() == old(self).store.wals@.len()
                    - pending.wal_ids@.len()
                &&& (forall|i: int|
                    0 <= i < final(self).store.wals@.len() ==> old(self).store.wals@.contains(
                        #[trigger] final(self).store.wals@[i],
                    ) && !pending.wal_ids@.contains(final(self).store.wals@[i].id))
                &&& final(self).store.partitions@.len() == old(self).store.partitions@.len()
                    + pending.wal_ids@.len()
                &&& (pending.wal_ids@.len() == 0 ==> eq_tables(
                    old(self).store,
                    final(self).store,
                ))
                &&& (pending.wal_ids@.len() > 0 ==> (exists|ti: int|
                    {
                        &&& 0 <= ti < old(self).store.tables@.len()
                        &&& (#[trigger] old(self).store.tables@[ti]).id == pending.table_id
                        &&& final(self).store.tables@.len() == old(self).store.tables@.len()
                        &&& final(self).store.tables@[ti].rows@.len() == old(self).store.tables@[ti].rows@.len() + int_sum(
                            pending_lens(old(self).store, pending.wal_ids@),
                        )
                        &&& final(self).store.tables@[ti].id == old(self).store.tables@[ti].id
                        &&& final(self).store.tables@[ti].name == old(self).store.tables@[ti].name
                        &&& final(self).store.tables@[ti].columns == old(self).store.tables@[ti].columns
                        &&& (forall|t: int|
                            0 <= t < old(self).store.tables@.len() && t != ti ==> final(self).store.tables@[t] == old(self).store.tables@[t])
                    }))
            },
    {
        if let Some(m) = first_error(events) {
            return Err(CubeError::user(String::from_str("Insert job failed: ").concat(m.as_str())));
        }
        let ids = &pending.wal_ids;
        let n_ids = ids.len();
        if n_ids == 0 {
            return Ok(pending.row_count);
        }
        let ghost orig = self.store;
        let ghost g_lens = pending_lens(orig, ids@);
        let ghost ti = choose|ti: int|
            0 <= ti < orig.tables@.len() && (#[trigger] orig.tables@[ti]).id == pending.table_id;
        proof {
            assert(wal_owned_by(orig, ids@[0], pending.table_id));
            let w = choose|w: int|
                0 <= w < orig.wals@.len() && (#[trigger] orig.wals@[w]).id == ids@[0]
                    && orig.wals@[w].table_id == pending.table_id;
            assert(orig.wals@[w].table_id == pending.table_id);
            assert(wal_has_table_helper(orig, w));
        }
        let mut k: usize = 0;
        let ghost mut acc: int = 0;
        proof {
            assert(ids@.take(0) =~= Seq::<u64>::empty());
            assert(g_lens.subrange(0, 0) =~= Seq::<int>::empty());
            assert forall|t: int| 0 <= t < ids@.len() implies #[trigger] wal_pending_at(
                orig,
                ids@[t],
                pending.table_id,
                g_lens[t],
            ) by {
                assert(wal_owned_by(orig, ids@[t], pending.table_id));
                let w1 = choose|w1: int|
                    0 <= w1 < orig.wals@.len() && (#[trigger] orig.wals@[w1]).id == ids@[t]
                        && orig.wals@[w1].table_id == pending.table_id;
                let w2 = choose|w2: int|
                    0 <= w2 < orig.wals@.len() && (#[trigger] orig.wals@[w2]).id == ids@[t];
                if w1 != w2 {
                    if w1 < w2 {
                        assert(orig.wals@[w1].id != orig.wals@[w2].id);
                    } else {
                        assert(orig.wals@[w2].id != orig.wals@[w1].id);
                    }
                }
                assert(g_lens[t] == orig.wals@[w2].data.spec_rows().len() as int);
                assert(0 <= w1 < orig.wals@.len() && orig.wals@[w1].id == ids@[t]
                    && orig.wals@[w1].table_id == pending.table_id
                    && orig.wals@[w1].data.spec_rows().len() as int == g_lens[t]);
            }
            assert(pending_remaining(orig, ids@, pending.table_id, g_lens, 0));
        }
        while k < n_ids
            invariant
                k <= n_ids,
                self.store.wf(),
                self.wal_chunk_size == old(self).wal_chunk_size,
                eq_schemas(orig, self.store),
                eq_indexes(orig, self.store),
                self.store.wals@.len() == orig.wals@.len() - k,
                self.store.next_wal_id == orig.next_wal_id,
                self.store.next_table_id == orig.next_table_id,
                forall|i: int|
                    0 <= i < self.store.wals@.len() ==> orig.wals@.contains(
                        #[trigger] self.store.wals@[i],
                    ),
                forall|i: int, t: int|
                    0 <= i < self.store.wals@.len() && 0 <= t < k ==> (
                    #[trigger] self.store.wals@[i]).id != (#[trigger] ids@[t]),
                pending_remaining(self.store, ids@, pending.table_id, g_lens, k as int),
                self.store.partitions@.len() == orig.partitions@.len() + k,
                self.store.next_partition_id == orig.next_partition_id + k,
                0 <= ti < orig.tables@.len(),
                orig.tables@[ti].id == pending.table_id,
                self.store.tables@.len() == orig.tables@.len(),
                forall|t: int|
                    0 <= t < orig.tables@.len() && t != ti ==> #[trigger] self.store.tables@[t]
                        == orig.tables@[t],
                self.store.tables@[ti].rows@.len() == orig.tables@[ti].rows@.len() + acc,
                acc == int_sum(g_lens.subrange(0, k as int)),
                self.store.tables@[ti].id == orig.tables@[ti].id,
                self.store.tables@[ti].name == orig.tables@[ti].name,
                self.store.tables@[ti].columns == orig.tables@[ti].columns,
            decreases n_ids - k,
        {
            let id = ids[k];
            let ghost pre = self.store;
            proof {
                assert(wal_pending_at(pre, ids@[k as int], pending.table_id, g_lens[k as int]));
            }
            let ghost wcur = choose|w: int|
                0 <= w < pre.wals@.len() && (#[trigger] pre.wals@[w]).id == ids@[k as int]
                    && pre.wals@[w].table_id == pending.table_id
                    && pre.wals@[w].data.spec_rows().len() as int == g_lens[k as int];
            let landed = match self.store.activate_wal(id) {
                Ok(n) => n,
                Err(e) => {
                    proof {
                        assert(false);
                    }
                    return Err(e);
                },
            };
            proof {
                let (wi, ti2): (int, int) = choose|wi: int, ti2: int|
                    {
                        &&& 0 <= wi < pre.wals@.len()
                        &&& (#[trigger] pre.wals@[wi]).id == id
                        &&& 0 <= ti2 < pre.tables@.len()
                        &&& (#[trigger] pre.tables@[ti2]).id == pre.wals@[wi].table_id
                        &&& landed == pre.wals@[wi].data.spec_rows().len()
                        &&& self.store.wals@ == pre.wals@.remove(wi)
                        &&& self.store.tables@.len() == pre.tables@.len()
                        &&& self.store.tables@[ti2].rows@ == pre.tables@[ti2].rows@
                            + pre.wals@[wi].data.spec_rows()
                        &&& self.store.tables@[ti2].id == pre.tables@[ti2].id
                        &&& self.store.tables@[ti2].name == pre.tables@[ti2].name
                        &&& self.store.tables@[ti2].columns == pre.tables@[ti2].columns
                        &&& (forall|t: int|
                            0 <= t < pre.tables@.len() && t != ti2 ==> self.store.tables@[t]
                                == pre.tables@[t])
                    };
                // The activated entry is the awaited one, and its table is
                // the pending table.
                if wi != wcur {
                    if wi < wcur {
                        assert(pre.wals@[wi].id != pre.wals@[wcur].id);
                    } else {
                        assert(pre.wals@[wcur].id != pre.wals@[wi].id);
                    }
                }
                assert(pre.wals@[wi].table_id == pending.table_id);
                if ti2 != ti {
                    assert(self.store.tables@[ti2].id == pending.table_id);
                    assert(pre.tables@[ti] == orig.tables@[ti]);
                    if ti2 < ti {
                        assert(pre.tables@[ti2].id != pre.tables@[ti].id);
                    } else {
                        assert(pre.tables@[ti].id != pre.tables@[ti2].id);
                    }
                }
                assert(ti2 == ti);
                assert(landed == g_lens[k as int]);
                // Wal membership facts transfer through the removal.
                assert forall|i: int|
                    0 <= i < self.store.wals@.len() implies orig.wals@.contains(
                    #[trigger] self.store.wals@[i],
                ) by {
                    let i0 = if i < wi {
                        i
                    } else {
                        i + 1
                    };
                    assert(self.store.wals@[i] == pre.wals@[i0]);
                }
                assert forall|i: int, t: int|
                    0 <= i < self.store.wals@.len() && 0 <= t < k + 1 implies (
                #[trigger] self.store.wals@[i]).id != (#[trigger] ids@[t]) by {
                    let i0 = if i < wi {
                        i
                    } else {
                        i + 1
                    };
                    assert(self.store.wals@[i] == pre.wals@[i0]);
                    if t == k {
                        if i0 != wi {
                            if i0 < wi {
                                assert(pre.wals@[i0].id != pre.wals@[wi].id);
                            } else {
                                assert(pre.wals@[wi].id != pre.wals@[i0].id);
                            }
                        }
                    }
                }
                assert(pending_remaining(pre, ids@, pending.table_id, g_lens, k as int));
                lemma_pending_remaining_after_remove(
                    pre,
                    self.store,
                    ids@,
                    pending.table_id,
                    g_lens,
                    k as int,
                    wi,
                );
                assert(pending_remaining(self.store, ids@, pending.table_id, g_lens, k + 1));
                // The accumulated landed rows follow the per-id lens.
                assert(g_lens.subrange(0, k + 1).drop_last() =~= g_lens.subrange(0, k as int));
                acc = acc + landed;
            }
            k += 1;
        }
        proof {
            assert(g_lens.subrange(0, n_ids as int) =~= g_lens);
        }
        Ok(pending.row_count)
    }
}

/// A WAL entry with this id is present, owned by this table, and holds this
/// many rows.
pub open spec fn wal_pending_at(store: MetaStore, id: u64, table_id: u64, len: int) -> bool {
    exists|w: int|
        0 <= w < store.wals@.len() && (#[trigger] store.wals@[w]).id == id
            && store.wals@[w].table_id == table_id && store.wals@[w].data.spec_rows().len() as int
            == len
}

/// Every still-awaited WAL entry (from position `k` on) is present, owned by
/// the pending table, and holds the row count recorded for it.
pub open spec fn pending_remaining(
    store: MetaStore,
    ids: Seq<u64>,
    table_id: u64,
    lens: Seq<int>,
    k: int,
) -> bool {
    forall|t: int|
        k <= t < ids.len() ==> #[trigger] wal_pending_at(store, ids[t], table_id, lens[t])
}


/// Landing one awaited WAL entry leaves every later awaited entry in place.
pub proof fn lemma_pending_remaining_after_remove(
    pre: MetaStore,
    post: MetaStore,
    ids: Seq<u64>,
    table_id: u64,
    lens: Seq<int>,
    k: int,
    wi: int,
)
    requires
        pre.wf(),
        pending_remaining(pre, ids, table_id, lens, k),
        0 <= wi < pre.wals@.len(),
        post.wals@ == pre.wals@.remove(wi),
        0 <= k < ids.len(),
        pre.wals@[wi].id == ids[k],
        forall|k1: int, k2: int| 0 <= k1 < k2 < ids.len() ==> ids[k1] != ids[k2],
    ensures
        pending_remaining(post, ids, table_id, lens, k + 1),
{
    assert forall|t: int|
        k + 1 <= t < ids.len() implies #[trigger] wal_pending_at(
        post,
        ids[t],
        table_id,
        lens[t],
    ) by {
        assert(ids[k] != ids[t]);
        assert(wal_pending_at(pre, ids[t], table_id, lens[t]));
        let w0 = choose|w0: int|
            0 <= w0 < pre.wals@.len() && (#[trigger] pre.wals@[w0]).id == ids[t]
                && pre.wals@[w0].table_id == table_id && pre.wals@[w0].data.spec_rows().len()
                as int == lens[t];
        assert(w0 != wi);
        let wnew = if w0 < wi {
            w0
        } else {
            w0 - 1
        };
        assert(post.wals@[wnew] == pre.wals@[w0]);
        assert(0 <= wnew < post.wals@.len() && post.wals@[wnew].id == ids[t]
            && post.wals@[wnew].table_id == table_id && post.wals@[wnew].data.spec_rows().len()
            as int == lens[t]);
    }
}

/// The table owning the WAL entry at this position exists.
pub open spec fn wal_has_table_helper(store: MetaStore, w: int) -> bool {
    exists|t: int|
        0 <= t < store.tables@.len() && (#[trigger] store.tables@[t]).id
            == store.wals@[w].table_id
}

} // verus!

verus! {

/// What a statement execution hands back: a finished frame, a pending
/// ingest or import whose job events the host must await, or a query
/// delegated to the query planner and executor.
#[derive(Debug, Clone, PartialEq, Eq)]
pub enum ExecOutcome {
    Frame(DataFrame),
    Pending(PendingInsert),
    PendingImport { table_id: u64, frame: DataFrame },
    Delegated,
}

/// Multi-part object names joined with dots, as they read in messages.
pub open spec fn spec_join_dot(parts: Seq<String>) -> Seq<char>
    decreases parts.len(),
{
    if parts.len() == 0 {
        Seq::empty()
    } else if parts.len() == 1 {
        parts[0]@
    } else {
        spec_join_dot(parts.drop_last()) + "."@ + parts.last()@
    }
}

/// Join the parts of an object name with dots.
pub fn join_dot(parts: &Vec<String>) -> (r: String)
    ensures
        r@ == spec_join_dot(parts@),
{
    let mut r = String::new();
    let mut i: usize = 0;
    if parts.len() == 0 {
        return r;
    }
    r = parts[0].clone();
    i = 1;
    while i < parts.len()
        invariant
            1 <= i <= parts@.len(),
            r@ == spec_join_dot(parts@.subrange(0, i as int)),
        decreases parts@.len() - i,
    {
        r = r.concat(".").concat(parts[i].as_str());
        proof {
            let p1 = parts@.subrange(0, i + 1);
            assert(p1.drop_last() =~= parts@.subrange(0, i as int));
            assert(p1.last() == parts@[i as int]);
        }
        i += 1;
    }
    proof {
        assert(parts@.subrange(0, parts@.len() as int) =~= parts@);
        if parts@.len() == 1 {
            assert(parts@.subrange(0, 1).len() == 1 && parts@.subrange(0, 1)[0] == parts@[0]);
        }
    }
    r
}

/// The frame row shown for a created or listed row: its id and its name.
pub open spec fn spec_id_name_row(id: u64, name: Seq<char>) -> Seq<CellView> {
    seq![CellView::Int(id as int), CellView::Str(name)]
}

/// A one-row frame showing an id and a name under the given column names.
fn id_name_frame(col_id: &str, col_name: &str, id: u64, name: &String) -> (f: DataFrame)
    requires
        id <= i64::MAX as u64,
    ensures
        f.spec_columns().len() == 2,
        f.spec_columns()[0].spec_name() == col_id@,
        f.spec_columns()[1].spec_name() == col_name@,
        f.spec_rows().len() == 1,
        f.spec_rows()[0].view_cells() == spec_id_name_row(id, name@),
{
    let mut columns: Vec<Column> = Vec::new();
    columns.push(Column::new(String::from_str(col_id), ColumnType::Int, 0));
    columns.push(Column::new(String::from_str(col_name), ColumnType::String, 1));
    let mut cells: Vec<TableValue> = Vec::new();
    cells.push(TableValue::Int(id as i64));
    cells.push(TableValue::String(name.clone()));
    let mut rows: Vec<Row> = Vec::new();
    rows.push(Row::new(cells));
    let f = DataFrame::new(columns, rows);
    proof {
        assert(f.spec_rows()[0].view_cells() =~= spec_id_name_row(id, name@));
    }
    f
}

/// Report the earliest error among an external table's import and
/// partitioning events, or hand the created table's frame through.
pub fn finish_create_table(frame: DataFrame, events: &Vec<JobEvent>) -> (r: Result<
    DataFrame,
    CubeError,
>)
    ensures
        r is Ok <==> spec_first_error(events@) is None,
        r matches Ok(f) ==> f == frame,
        r matches Err(e) ==> e.message@ == "Create table failed: "@ + spec_first_error(events@)->0,
{
    match first_error(events) {
        Some(m) => Err(
            CubeError::user(String::from_str("Create table failed: ").concat(m.as_str())),
        ),
        None => Ok(frame),
    }
}

} // verus!

verus! {

/// Every column expression of a `CREATE INDEX` is a plain identifier.
pub open spec fn index_cols_plain(cols: Seq<crate::statement::IndexColumn>) -> bool {
    forall|i: int| 0 <= i < cols.len() ==> (#[trigger] cols[i]) matches
        crate::statement::IndexColumn::Ident(_)
}

/// The views of a list of strings.
pub open spec fn string_views(v: Seq<String>) -> Seq<Seq<char>> {
    v.map_values(|s: String| s@)
}

/// The texts of an index statement's column expressions.
pub open spec fn index_col_texts(cols: Seq<crate::statement::IndexColumn>) -> Seq<Seq<char>> {
    cols.map_values(|c: crate::statement::IndexColumn| crate::statement::index_column_text(c))
}

/// The column-name texts of one embedded index statement.
fn index_def_of(stmt: &crate::statement::CreateIndexStatement) -> (d: IndexDef)
    ensures
        d.name@ == stmt.name@,
        string_views(d.columns@) == index_col_texts(stmt.columns@),
{
    let mut cols: Vec<String> = Vec::new();
    let mut i: usize = 0;
    while i < stmt.columns.len()
        invariant
            i <= stmt.columns@.len(),
            cols@.len() == i,
            forall|k: int|
                0 <= k < i ==> (#[trigger] cols@[k])@ == crate::statement::index_column_text(
                    stmt.columns@[k],
                ),
        decreases stmt.columns@.len() - i,
    {
        let text = match &stmt.columns[i] {
            crate::statement::IndexColumn::Ident(s) => s.clone(),
            crate::statement::IndexColumn::Other(s) => s.clone(),
        };
        proof {
            assert(text@ == crate::statement::index_column_text(stmt.columns@[i as int]));
        }
        cols.push(text);
        i += 1;
    }
    proof {
        assert forall|q: int|
            0 <= q < stmt.columns@.len() implies string_views(cols@)[q] == index_col_texts(
            stmt.columns@,
        )[q] by {
            assert(string_views(cols@)[q] == cols@[q]@);
            assert(index_col_texts(stmt.columns@)[q] == crate::statement::index_column_text(
                stmt.columns@[q],
            ));
        }
        assert(string_views(cols@) =~= index_col_texts(stmt.columns@));
    }
    IndexDef { name: stmt.name.clone(), columns: cols }
}

impl SqlServiceImpl {
    /// `CREATE SCHEMA`: create the schema row (or return the existing one
    /// under `IF NOT EXISTS`) and show it as a one-row frame.
    pub fn create_schema(&mut self, name: String, if_not_exists: bool) -> (r: Result<
        DataFrame,
        CubeError,
    >)
        requires
            old(self).wf(),
            old(self).store.next_schema_id <= i64::MAX as u64,
        ensures
            final(self).wf(),
            final(self).wal_chunk_size == old(self).wal_chunk_size,
            eq_tables(old(self).store, final(self).store),
            eq_indexes(old(self).store, final(self).store),
            eq_wals(old(self).store, final(self).store),
            eq_partitions(old(self).store, final(self).store),
            old(self).store.next_schema_id <= final(self).store.next_schema_id <= old(self).store.next_schema_id + 1,
            has_schema(old(self).store.schemas@, name@) ==> {
                &&& final(self).store == old(self).store
                &&& (r is Ok <==> if_not_exists)
                &&& (r matches Err(e) ==> e.message@ == "Schema "@ + name@ + " already exists"@)
            },
            !has_schema(old(self).store.schemas@, name@) ==> (r matches Ok(f) && {
                &&& final(self).store.schemas@.len() == old(self).store.schemas@.len() + 1
                &&& final(self).store.schemas@.subrange(
                    0,
                    old(self).store.schemas@.len() as int,
                ) == old(self).store.schemas@
                &&& final(self).store.schemas@.last().id == old(self).store.next_schema_id
                &&& final(self).store.schemas@.last().name@ == name@
                &&& f.spec_rows().len() == 1
                &&& f.spec_rows()[0].view_cells() == spec_id_name_row(
                    old(self).store.next_schema_id,
                    name@,
                )
            }),
            r matches Ok(f) ==> f.spec_rows().len() == 1 && exists|id: u64|
                schema_named(final(self).store.schemas@, name@, id) && #[trigger] f.spec_rows()[0].view_cells()
                    == spec_id_name_row(id, name@),
    {
        let shown = name.clone();
        let id = self.store.create_schema(name, if_not_exists)?;
        proof {
            if !has_schema(old(self).store.schemas@, shown@) {
                assert(final(self).store.schemas@.last() == self.store.schemas@[self.store.schemas@.len()
                    - 1]);
                assert(schema_named(self.store.schemas@, shown@, id));
            } else {
                let i = choose|i: int|
                    0 <= i < old(self).store.schemas@.len() && (#[trigger] old(self).store.schemas@[i]).name@ == shown@ && old(self).store.schemas@[i].id == id;
                assert(schema_named(self.store.schemas@, shown@, id));
            }
            assert(id <= i64::MAX as u64);
        }
        Ok(id_name_frame("id", "schema_name", id, &shown))
    }

    /// `CREATE TABLE`: map the declared column types, derive the embedded
    /// index definitions, create the table row, and show it as a one-row
    /// frame with its id. An external table is created with its location and
    /// the CSV import format; an internal one stores no location and no
    /// format, whatever the statement carried.
    pub fn create_table(
        &mut self,
        schema_name: &String,
        table_name: &String,
        columns: &Vec<ColumnDecl>,
        external: bool,
        location: &Option<String>,
        indexes: &Vec<crate::statement::CreateIndexStatement>,
    ) -> (r: Result<(u64, DataFrame), CubeError>)
        requires
            old(self).wf(),
            old(self).store.next_table_id <= i64::MAX as u64,
            old(self).store.next_index_id + indexes@.len() < u64::MAX,
        ensures
            final(self).wf(),
            final(self).wal_chunk_size == old(self).wal_chunk_size,
            eq_schemas(old(self).store, final(self).store),
            eq_wals(old(self).store, final(self).store),
            eq_partitions(old(self).store, final(self).store),
            old(self).store.next_table_id <= final(self).store.next_table_id <= old(self).store.next_table_id + 1,
            old(self).store.next_index_id <= final(self).store.next_index_id <= old(self).store.next_index_id + indexes@.len(),
            r is Err ==> *final(self) == *old(self),
            !decls_map(columns@) ==> r is Err,
            decls_map(columns@) && !has_schema(old(self).store.schemas@, schema_name@) ==> (
            r matches Err(e) && e.message@ == "Schema "@ + schema_name@ + " does not exist"@),
            decls_map(columns@) && some_table_named(
                old(self).store.schemas@,
                old(self).store.tables@,
                schema_name@,
                table_name@,
            ) ==> (r matches Err(e) && e.message@ == "Table "@ + schema_name@ + "."@ + table_name@
                + " already exists"@),
            decls_map(columns@) && has_schema(old(self).store.schemas@, schema_name@)
                && !some_table_named(
                old(self).store.schemas@,
                old(self).store.tables@,
                schema_name@,
                table_name@,
            ) ==> (r matches Ok(p) && {
                let t = final(self).store.tables@.last();
                &&& p.0 == old(self).store.next_table_id
                &&& schema_named(old(self).store.schemas@, schema_name@, t.schema_id)
                &&& final(self).store.tables@.len() == old(self).store.tables@.len() + 1
                &&& final(self).store.tables@.subrange(0, old(self).store.tables@.len() as int)
                    == old(self).store.tables@
                &&& t.id == p.0
                &&& t.name@ == table_name@
                &&& t.columns@.len() == columns@.len()
                &&& (forall|i: int|
                    0 <= i < columns@.len() ==> {
                        &&& (#[trigger] t.columns@[i]).spec_name() == columns@[i].name@
                        &&& Some(t.columns@[i].spec_type()) == spec_map_type(columns@[i].data_type)
                        &&& t.columns@[i].spec_index() == i
                    })
                &&& t.location == (if external {
                    *location
                } else {
                    None
                })
                &&& t.import_format == (if external {
                    Some(ImportFormat::Csv)
                } else {
                    None
                })
                &&& t.has_data == (external && location is Some)
                &&& final(self).store.indexes@.len() == old(self).store.indexes@.len()
                    + indexes@.len()
                &&& (forall|k: int|
                    0 <= k < indexes@.len() ==> {
                        let ix = #[trigger] final(self).store.indexes@[old(self).store.indexes@.len() + k];
                        &&& ix.table_id == p.0
                        &&& ix.index.name@ == indexes@[k].name@
                        &&& string_views(ix.index.columns@) == index_col_texts(
                            indexes@[k].columns@,
                        )
                    })
                &&& p.1.spec_rows().len() == 1
                &&& p.1.spec_rows()[0].view_cells() == spec_id_name_row(p.0, table_name@)
            }),
    {
        let cols = match convert_columns_type(columns) {
            Ok(cols) => cols,
            Err(e) => {
                return Err(e);
            },
        };
        let mut defs: Vec<IndexDef> = Vec::new();
        let mut i: usize = 0;
        while i < indexes.len()
            invariant
                i <= indexes@.len(),
                defs@.len() == i,
                forall|k: int|
                    0 <= k < i ==> {
                        &&& (#[trigger] defs@[k]).name@ == indexes@[k].name@
                        &&& string_views(defs@[k].columns@) == index_col_texts(
                            indexes@[k].columns@,
                        )
                    },
            decreases indexes@.len() - i,
        {
            defs.push(index_def_of(&indexes[i]));
            i += 1;
        }
        // An internal table stores neither the location nor an import
        // format, whatever the statement carried.
        let no_location: Option<String> = None;
        let (loc, format): (&Option<String>, Option<ImportFormat>) = if external {
            (location, Some(ImportFormat::Csv))
        } else {
            (&no_location, None)
        };
        let id = self.store.create_table(schema_name, table_name, cols, loc, format, defs)?;
        Ok((id, id_name_frame("id", "table_name", id, table_name)))
    }

    /// `CREATE INDEX`: attach an index to the named table, which must not
    /// have received any data, and show it as a one-row frame.
    pub fn create_index(
        &mut self,
        schema_name: &String,
        table_name: &String,
        name: String,
        columns: Vec<String>,
    ) -> (r: Result<DataFrame, CubeError>)
        requires
            old(self).wf(),
            old(self).store.next_index_id <= i64::MAX as u64,
        ensures
            final(self).wf(),
            final(self).wal_chunk_size == old(self).wal_chunk_size,
            eq_schemas(old(self).store, final(self).store),
            eq_tables(old(self).store, final(self).store),
            eq_wals(old(self).store, final(self).store),
            eq_partitions(old(self).store, final(self).store),
            old(self).store.next_index_id <= final(self).store.next_index_id <= old(self).store.next_index_id + 1,
            r is Err ==> *final(self) == *old(self),
            !has_schema(old(self).store.schemas@, schema_name@) ==> (r matches Err(e)
                && e.message@ == "Schema "@ + schema_name@ + " does not exist"@),
            r is Ok ==> final(self).store.indexes@.len() == old(self).store.indexes@.len() + 1,
            forall|tid: u64|
                table_named(
                    old(self).store.schemas@,
                    old(self).store.tables@,
                    schema_name@,
                    table_name@,
                    tid,
                    true,
                ) ==> (r matches Err(e) && e.message@ == "Table "@ + schema_name@ + "."@
                    + table_name@ + " has data"@),
            forall|tid: u64|
                table_named(
                    old(self).store.schemas@,
                    old(self).store.tables@,
                    schema_name@,
                    table_name@,
                    tid,
                    false,
                ) ==> (r matches Ok(f) && {
                    &&& final(self).store.indexes@.len() == old(self).store.indexes@.len() + 1
                    &&& final(self).store.indexes@.last().table_id == tid
                    &&& final(self).store.indexes@.last().index.name@ == name@
                    &&& final(self).store.indexes@.last().index.columns == columns
                    &&& f.spec_rows().len() == 1
                    &&& f.spec_rows()[0].view_cells() == spec_id_name_row(
                        old(self).store.next_index_id,
                        name@,
                    )
                }),
    {
        let shown = name.clone();
        let id = self.store.create_index(schema_name, table_name, IndexDef { name, columns })?;
        Ok(id_name_frame("id", "index_name", id, &shown))
    }
}

} // verus!

verus! {

/// A row count clamped into the signed 64-bit range for display.
pub open spec fn spec_count_cell(n: int) -> CellView {
    if n <= i64::MAX {
        CellView::Int(n)
    } else {
        CellView::Int(i64::MAX as int)
    }
}

fn count_cell(n: usize) -> (c: TableValue)
    ensures
        c@ == spec_count_cell(n as int),
{
    let m = n as u64;
    if m > i64::MAX as u64 {
        TableValue::Int(i64::MAX)
    } else {
        TableValue::Int(m as i64)
    }
}

/// A referenced id clamped into the signed 64-bit range for display.
pub open spec fn spec_id_cell(id: u64) -> CellView {
    if id <= i64::MAX as u64 {
        CellView::Int(id as int)
    } else {
        CellView::Int(i64::MAX as int)
    }
}

fn id_cell(id: u64) -> (c: TableValue)
    ensures
        c@ == spec_id_cell(id),
{
    if id > i64::MAX as u64 {
        TableValue::Int(i64::MAX)
    } else {
        TableValue::Int(id as i64)
    }
}

/// The row shown for a schema: its id and name.
pub open spec fn spec_schema_row(s: crate::metastore::SchemaRow) -> Seq<CellView> {
    seq![CellView::Int(s.id as int), CellView::Str(s.name@)]
}

/// The row shown for a table: its id, its schema's id and its name.
pub open spec fn spec_table_row(t: crate::metastore::TableRow) -> Seq<CellView> {
    seq![CellView::Int(t.id as int), spec_id_cell(t.schema_id), CellView::Str(t.name@)]
}

/// The row shown for a WAL chunk: its id, its table's id and its row count.
pub open spec fn spec_chunk_row(w: WalRow) -> Seq<CellView> {
    seq![
        CellView::Int(w.id as int),
        spec_id_cell(w.table_id),
        spec_count_cell(w.data.spec_rows().len() as int),
    ]
}

/// The row shown for an index: its id, its table's id and its name.
pub open spec fn spec_index_row(x: crate::metastore::IndexRow) -> Seq<CellView> {
    seq![CellView::Int(x.id as int), spec_id_cell(x.table_id), CellView::Str(x.index.name@)]
}

/// The row shown for a partition: its id, its table's id and its row count.
pub open spec fn spec_partition_row(p: crate::metastore::PartitionRow) -> Seq<CellView> {
    seq![
        CellView::Int(p.id as int),
        spec_id_cell(p.table_id),
        spec_count_cell_u64(p.row_count),
    ]
}

/// A stored row count clamped into the signed 64-bit range for display.
pub open spec fn spec_count_cell_u64(n: u64) -> CellView {
    if n <= i64::MAX as u64 {
        CellView::Int(n as int)
    } else {
        CellView::Int(i64::MAX as int)
    }
}

impl SqlServiceImpl {
    /// `SHOW schemas`: every schema row.
    pub fn show_schemas(&self) -> (f: DataFrame)
        requires
            self.wf(),
            self.store.next_schema_id <= i64::MAX as u64,
        ensures
            f.spec_rows().len() == self.store.schemas@.len(),
            forall|i: int|
                0 <= i < self.store.schemas@.len() ==> (#[trigger] f.spec_rows()[i]).view_cells()
                    == spec_schema_row(self.store.schemas@[i]),
    {
        let mut columns: Vec<Column> = Vec::new();
        columns.push(Column::new(String::from_str("id"), ColumnType::Int, 0));
        columns.push(Column::new(String::from_str("schema_name"), ColumnType::String, 1));
        let mut rows: Vec<Row> = Vec::new();
        let mut i: usize = 0;
        while i < self.store.schemas.len()
            invariant
                self.wf(),
                self.store.next_schema_id <= i64::MAX as u64,
                i <= self.store.schemas@.len(),
                rows@.len() == i,
                forall|t: int|
                    0 <= t < i ==> (#[trigger] rows@[t]).view_cells() == spec_schema_row(
                        self.store.schemas@[t],
                    ),
            decreases self.store.schemas@.len() - i,
        {
            let s = &self.store.schemas[i];
            let mut cells: Vec<TableValue> = Vec::new();
            cells.push(TableValue::Int(s.id as i64));
            cells.push(TableValue::String(s.name.clone()));
            let row = Row::new(cells);
            proof {
                assert(row.view_cells() =~= spec_schema_row(self.store.schemas@[i as int]));
            }
            rows.push(row);
            i += 1;
        }
        DataFrame::new(columns, rows)
    }

    /// `SHOW tables`: every table row.
    pub fn show_tables(&self) -> (f: DataFrame)
        requires
            self.wf(),
            self.store.next_table_id <= i64::MAX as u64,
        ensures
            f.spec_rows().len() == self.store.tables@.len(),
            forall|i: int|
                0 <= i < self.store.tables@.len() ==> (#[trigger] f.spec_rows()[i]).view_cells()
                    == spec_table_row(self.store.tables@[i]),
    {
        let mut columns: Vec<Column> = Vec::new();
        columns.push(Column::new(String::from_str("id"), ColumnType::Int, 0));
        columns.push(Column::new(String::from_str("schema_id"), ColumnType::Int, 1));
        columns.push(Column::new(String::from_str("table_name"), ColumnType::String, 2));
        let mut rows: Vec<Row> = Vec::new();
        let mut i: usize = 0;
        while i < self.store.tables.len()
            invariant
                self.wf(),
                self.store.next_table_id <= i64::MAX as u64,
                i <= self.store.tables@.len(),
                rows@.len() == i,
                forall|t: int|
                    0 <= t < i ==> (#[trigger] rows@[t]).view_cells() == spec_table_row(
                        self.store.tables@[t],
                    ),
            decreases self.store.tables@.len() - i,
        {
            let t = &self.store.tables[i];
            let mut cells: Vec<TableValue> = Vec::new();
            cells.push(TableValue::Int(t.id as i64));
            cells.push(id_cell(t.schema_id));
            cells.push(TableValue::String(t.name.clone()));
            let row = Row::new(cells);
            proof {
                assert(row.view_cells() =~= spec_table_row(self.store.tables@[i as int]));
            }
            rows.push(row);
            i += 1;
        }
        DataFrame::new(columns, rows)
    }
}

} // verus!

verus! {

impl SqlServiceImpl {
    /// `SHOW chunks`: every WAL entry awaiting partitioning.
    pub fn show_chunks(&self) -> (f: DataFrame)
        requires
            self.wf(),
            self.store.next_wal_id <= i64::MAX as u64,
        ensures
            f.spec_rows().len() == self.store.wals@.len(),
            forall|i: int|
                0 <= i < self.store.wals@.len() ==> (#[trigger] f.spec_rows()[i]).view_cells()
                    == spec_chunk_row(self.store.wals@[i]),
    {
        let mut columns: Vec<Column> = Vec::new();
        columns.push(Column::new(String::from_str("id"), ColumnType::Int, 0));
        columns.push(Column::new(String::from_str("table_id"), ColumnType::Int, 1));
        columns.push(Column::new(String::from_str("rows"), ColumnType::Int, 2));
        let mut rows: Vec<Row> = Vec::new();
        let mut i: usize = 0;
        while i < self.store.wals.len()
            invariant
                self.wf(),
                self.store.next_wal_id <= i64::MAX as u64,
                i <= self.store.wals@.len(),
                rows@.len() == i,
                forall|t: int|
                    0 <= t < i ==> (#[trigger] rows@[t]).view_cells() == spec_chunk_row(
                        self.store.wals@[t],
                    ),
            decreases self.store.wals@.len() - i,
        {
            let w = &self.store.wals[i];
            let mut cells: Vec<TableValue> = Vec::new();
            cells.push(TableValue::Int(w.id as i64));
            cells.push(id_cell(w.table_id));
            cells.push(count_cell(w.data.get_rows().len()));
            let row = Row::new(cells);
            proof {
                assert(row.view_cells() =~= spec_chunk_row(self.store.wals@[i as int]));
            }
            rows.push(row);
            i += 1;
        }
        DataFrame::new(columns, rows)
    }

    /// `SHOW indexes`: every index row.
    pub fn show_indexes(&self) -> (f: DataFrame)
        requires
            self.wf(),
            self.store.next_index_id <= i64::MAX as u64,
        ensures
            f.spec_rows().len() == self.store.indexes@.len(),
            forall|i: int|
                0 <= i < self.store.indexes@.len() ==> (#[trigger] f.spec_rows()[i]).view_cells()
                    == spec_index_row(self.store.indexes@[i]),
    {
        let mut columns: Vec<Column> = Vec::new();
        columns.push(Column::new(String::from_str("id"), ColumnType::Int, 0));
        columns.push(Column::new(String::from_str("table_id"), ColumnType::Int, 1));
        columns.push(Column::new(String::from_str("index_name"), ColumnType::String, 2));
        let mut rows: Vec<Row> = Vec::new();
        let mut i: usize = 0;
        while i < self.store.indexes.len()
            invariant
                self.wf(),
                self.store.next_index_id <= i64::MAX as u64,
                i <= self.store.indexes@.len(),
                rows@.len() == i,
                forall|t: int|
                    0 <= t < i ==> (#[trigger] rows@[t]).view_cells() == spec_index_row(
                        self.store.indexes@[t],
                    ),
            decreases self.store.indexes@.len() - i,
        {
            let x = &self.store.indexes[i];
            let mut cells: Vec<TableValue> = Vec::new();
            cells.push(TableValue::Int(x.id as i64));
            cells.push(id_cell(x.table_id));
            cells.push(TableValue::String(x.index.name.clone()));
            let row = Row::new(cells);
            proof {
                assert(row.view_cells() =~= spec_index_row(self.store.indexes@[i as int]));
            }
            rows.push(row);
            i += 1;
        }
        DataFrame::new(columns, rows)
    }

    /// `SHOW partitions`: every partition row.
    pub fn show_partitions(&self) -> (f: DataFrame)
        requires
            self.wf(),
            self.store.next_partition_id <= i64::MAX as u64,
        ensures
            f.spec_rows().len() == self.store.partitions@.len(),
            forall|i: int|
                0 <= i < self.store.partitions@.len() ==> (
                #[trigger] f.spec_rows()[i]).view_cells() == spec_partition_row(
                    self.store.partitions@[i],
                ),
    {
        let mut columns: Vec<Column> = Vec::new();
        columns.push(Column::new(String::from_str("id"), ColumnType::Int, 0));
        columns.push(Column::new(String::from_str("table_id"), ColumnType::Int, 1));
        columns.push(Column::new(String::from_str("rows"), ColumnType::Int, 2));
        let mut rows: Vec<Row> = Vec::new();
        let mut i: usize = 0;
        while i < self.store.partitions.len()
            invariant
                self.wf(),
                self.store.next_partition_id <= i64::MAX as u64,
                i <= self.store.partitions@.len(),
                rows@.len() == i,
                forall|t: int|
                    0 <= t < i ==> (#[trigger] rows@[t]).view_cells() == spec_partition_row(
                        self.store.partitions@[t],
                    ),
            decreases self.store.partitions@.len() - i,
        {
            let p = &self.store.partitions[i];
            let mut cells: Vec<TableValue> = Vec::new();
            cells.push(TableValue::Int(p.id as i64));
            cells.push(id_cell(p.table_id));
            let c = if p.row_count > i64::MAX as u64 {
                TableValue::Int(i64::MAX)
            } else {
                TableValue::Int(p.row_count as i64)
            };
            cells.push(c);
            let row = Row::new(cells);
            proof {
                assert(row.view_cells() =~= spec_partition_row(self.store.partitions@[i as int]));
            }
            rows.push(row);
            i += 1;
        }
        DataFrame::new(columns, rows)
    }
}

} // verus!

verus! {

impl SqlServiceImpl {
    /// `SHOW <variable>`: dispatch on the lowercased variable name; an
    /// unrecognized one is a user error naming it.
    pub fn exec_show(&self, variable: &String) -> (r: Result<DataFrame, CubeError>)
        requires
            self.wf(),
            self.store.next_schema_id <= i64::MAX as u64,
            self.store.next_table_id <= i64::MAX as u64,
            self.store.next_index_id <= i64::MAX as u64,
            self.store.next_wal_id <= i64::MAX as u64,
            self.store.next_partition_id <= i64::MAX as u64,
        ensures
            ({
                let low = crate::values::lower_of(variable@);
                &&& (low != "schemas"@ && low != "tables"@ && low != "chunks"@ && low
                    != "indexes"@ && low != "partitions"@ ==> (r matches Err(e) && e.message@
                    == "Unknown SHOW: "@ + low))
                &&& (low == "schemas"@ ==> (r matches Ok(f) && {
                    &&& f.spec_rows().len() == self.store.schemas@.len()
                    &&& (forall|i: int|
                        0 <= i < self.store.schemas@.len() ==> (
                        #[trigger] f.spec_rows()[i]).view_cells() == spec_schema_row(
                            self.store.schemas@[i],
                        ))
                }))
                &&& (low == "tables"@ ==> (r matches Ok(f) && {
                    &&& f.spec_rows().len() == self.store.tables@.len()
                    &&& (forall|i: int|
                        0 <= i < self.store.tables@.len() ==> (
                        #[trigger] f.spec_rows()[i]).view_cells() == spec_table_row(
                            self.store.tables@[i],
                        ))
                }))
                &&& (low == "chunks"@ ==> (r matches Ok(f) && {
                    &&& f.spec_rows().len() == self.store.wals@.len()
                    &&& (forall|i: int|
                        0 <= i < self.store.wals@.len() ==> (
                        #[trigger] f.spec_rows()[i]).view_cells() == spec_chunk_row(
                            self.store.wals@[i],
                        ))
                }))
                &&& (low == "indexes"@ ==> (r matches Ok(f) && {
                    &&& f.spec_rows().len() == self.store.indexes@.len()
                    &&& (forall|i: int|
                        0 <= i < self.store.indexes@.len() ==> (
                        #[trigger] f.spec_rows()[i]).view_cells() == spec_index_row(
                            self.store.indexes@[i],
                        ))
                }))
                &&& (low == "partitions"@ ==> (r matches Ok(f) && {
                    &&& f.spec_rows().len() == self.store.partitions@.len()
                    &&& (forall|i: int|
                        0 <= i < self.store.partitions@.len() ==> (
                        #[trigger] f.spec_rows()[i]).view_cells() == spec_partition_row(
                            self.store.partitions@[i],
                        ))
                }))
            }),
    {
        proof {
            reveal_strlit("schemas");
            reveal_strlit("tables");
            reveal_strlit("chunks");
            reveal_strlit("indexes");
            reveal_strlit("partitions");
            // The five variable names are pairwise distinct (their lengths
            // and first characters differ), so exactly one branch matches.
            assert("schemas"@.len() == 7);
            assert("tables"@.len() == 6);
            assert("chunks"@.len() == 6);
            assert("indexes"@.len() == 7);
            assert("partitions"@.len() == 10);
            assert("tables"@[0] == 't' && "chunks"@[0] == 'c');
            assert("schemas"@[0] == 's' && "indexes"@[0] == 'i');
        }
        let low = crate::values::lowercase(variable.as_str());
        if low == String::from_str("schemas") {
            Ok(self.show_schemas())
        } else if low == String::from_str("tables") {
            Ok(self.show_tables())
        } else if low == String::from_str("chunks") {
            Ok(self.show_chunks())
        } else if low == String::from_str("indexes") {
            Ok(self.show_indexes())
        } else if low == String::from_str("partitions") {
            Ok(self.show_partitions())
        } else {
            Err(CubeError::user(String::from_str("Unknown SHOW: ").concat(low.as_str())))
        }
    }
}

} // verus!

verus! {

impl SqlServiceImpl {
    /// Dispatch one parsed statement. DDL and DML run against the store;
    /// `INSERT` and external `CREATE TABLE` come back pending their job
    /// events; `SELECT` is delegated to the query planner; anything else is
    /// a user error quoting the query.
    #[verifier::loop_isolation(false)]
    #[verifier::rlimit(90)]
    pub fn exec_statement(
        &mut self,
        stmt: &crate::statement::Statement,
        q: &str,
        preps: &Vec<Vec<CellPrep>>,
    ) -> (r: Result<ExecOutcome, CubeError>)
        requires
            old(self).wf(),
            crate::statement::statement_wf(*stmt),
            old(self).store.next_schema_id <= i64::MAX as u64,
            old(self).store.next_table_id <= i64::MAX as u64,
            old(self).store.next_index_id <= i64::MAX as u64,
            old(self).store.next_wal_id <= i64::MAX as u64,
            old(self).store.next_partition_id <= i64::MAX as u64,
            stmt matches crate::statement::Statement::CreateTable { indexes, .. } ==> old(self).store.next_index_id + indexes@.len() < i64::MAX as u64,
            stmt matches crate::statement::Statement::Insert {
                source: crate::statement::InsertSource::Values(data),
                columns,
                ..
            } ==> {
                &&& old(self).store.next_wal_id + data@.len() < i64::MAX as u64
                &&& preps@.len() == data@.len()
                &&& (forall|j: int|
                    0 <= j < data@.len() ==> (#[trigger] preps@[j])@.len() == data@[j]@.len())
                &&& (forall|j: int|
                    0 <= j < data@.len() ==> (#[trigger] data@[j])@.len() <= columns@.len())
            },
        ensures
            final(self).wf(),
            final(self).wal_chunk_size == old(self).wal_chunk_size,
            old(self).store.next_schema_id <= final(self).store.next_schema_id <= old(self).store.next_schema_id + 1,
            old(self).store.next_table_id <= final(self).store.next_table_id <= old(self).store.next_table_id + 1,
            old(self).store.next_index_id <= final(self).store.next_index_id,
            stmt matches crate::statement::Statement::CreateTable { indexes, .. } ==> final(self).store.next_index_id <= old(self).store.next_index_id + indexes@.len(),
            stmt matches crate::statement::Statement::CreateIndex(_) ==> final(self).store.next_index_id <= old(self).store.next_index_id + 1,
            !(stmt matches crate::statement::Statement::CreateTable { .. }) && !(
            stmt matches crate::statement::Statement::CreateIndex(_)) ==> final(self).store.next_index_id == old(self).store.next_index_id,
            old(self).store.next_wal_id <= final(self).store.next_wal_id,
            stmt matches crate::statement::Statement::Insert {
                source: crate::statement::InsertSource::Values(data),
                ..
            } ==> final(self).store.next_wal_id <= old(self).store.next_wal_id + data@.len(),
            !(stmt matches crate::statement::Statement::Insert { .. }) || (
            stmt matches crate::statement::Statement::Insert {
                source: crate::statement::InsertSource::Other,
                ..
            }) ==> final(self).store.next_wal_id == old(self).store.next_wal_id,
            final(self).store.next_partition_id == old(self).store.next_partition_id,
            stmt matches crate::statement::Statement::Other ==> (r matches Err(e) && e.message@
                == "Unsupported SQL: '"@ + q@ + "'"@ && *final(self) == *old(self)),
            stmt matches crate::statement::Statement::Query ==> r matches Ok(o) && o
                == ExecOutcome::Delegated && *final(self) == *old(self),
            stmt matches crate::statement::Statement::SetVariable ==> (r matches Ok(o) && (
            o matches ExecOutcome::Frame(f) && crate::workbench::spec_empty_frame(f))
                && *final(self) == *old(self)),
            stmt matches crate::statement::Statement::ShowVariable { variable } ==> {
                let low = crate::values::lower_of(variable@);
                &&& *final(self) == *old(self)
                &&& (low != "schemas"@ && low != "tables"@ && low != "chunks"@ && low
                    != "indexes"@ && low != "partitions"@ ==> (r matches Err(e) && e.message@
                    == "Unknown SHOW: "@ + low))
                &&& (low == "schemas"@ ==> (r matches Ok(o) && o matches ExecOutcome::Frame(f) && {
                    &&& f.spec_rows().len() == old(self).store.schemas@.len()
                    &&& (forall|i: int|
                        0 <= i < old(self).store.schemas@.len() ==> (
                        #[trigger] f.spec_rows()[i]).view_cells() == spec_schema_row(
                            old(self).store.schemas@[i],
                        ))
                }))
                &&& (low == "tables"@ ==> (r matches Ok(o) && o matches ExecOutcome::Frame(f) && {
                    &&& f.spec_rows().len() == old(self).store.tables@.len()
                    &&& (forall|i: int|
                        0 <= i < old(self).store.tables@.len() ==> (
                        #[trigger] f.spec_rows()[i]).view_cells() == spec_table_row(
                            old(self).store.tables@[i],
                        ))
                }))
                &&& (low == "chunks"@ ==> (r matches Ok(o) && o matches ExecOutcome::Frame(f) && {
                    &&& f.spec_rows().len() == old(self).store.wals@.len()
                    &&& (forall|i: int|
                        0 <= i < old(self).store.wals@.len() ==> (
                        #[trigger] f.spec_rows()[i]).view_cells() == spec_chunk_row(
                            old(self).store.wals@[i],
                        ))
                }))
                &&& (low == "indexes"@ ==> (r matches Ok(o) && o matches ExecOutcome::Frame(f) && {
                    &&& f.spec_rows().len() == old(self).store.indexes@.len()
                    &&& (forall|i: int|
                        0 <= i < old(self).store.indexes@.len() ==> (
                        #[trigger] f.spec_rows()[i]).view_cells() == spec_index_row(
                            old(self).store.indexes@[i],
                        ))
                }))
                &&& (low == "partitions"@ ==> (r matches Ok(o) && o matches ExecOutcome::Frame(f)
                    && {
                    &&& f.spec_rows().len() == old(self).store.partitions@.len()
                    &&& (forall|i: int|
                        0 <= i < old(self).store.partitions@.len() ==> (
                        #[trigger] f.spec_rows()[i]).view_cells() == spec_partition_row(
                            old(self).store.partitions@[i],
                        ))
                }))
            },
            stmt matches crate::statement::Statement::CreateSchema { schema_name, if_not_exists }
                ==> {
                &&& (has_schema(old(self).store.schemas@, schema_name@) && !*if_not_exists ==> (
                r matches Err(e) && e.message@ == "Schema "@ + schema_name@ + " already exists"@
                    && *final(self) == *old(self)))
                &&& (r is Ok ==> has_schema(final(self).store.schemas@, schema_name@))
                &&& (!has_schema(old(self).store.schemas@, schema_name@) ==> (r matches Ok(o) && (
                o matches ExecOutcome::Frame(f) && f.spec_rows().len() == 1
                    && f.spec_rows()[0].view_cells() == spec_id_name_row(
                    old(self).store.next_schema_id,
                    schema_name@,
                ))))
            },
            stmt matches crate::statement::Statement::CreateTable {
                name,
                columns,
                external,
                location,
                indexes,
            } ==> (name@.len() != 2 ==> (r matches Err(e) && e.message@
                == "Schema's name should be present in table name but found: "@ + spec_join_dot(
                name@,
            ) && *final(self) == *old(self))) && (name@.len() == 2 ==> {
                &&& (r is Ok ==> decls_map(columns@) && has_schema(
                    final(self).store.schemas@,
                    name@[0]@,
                ) && some_table_named(
                    final(self).store.schemas@,
                    final(self).store.tables@,
                    name@[0]@,
                    name@[1]@,
                ))
                &&& (r matches Ok(o) ==> (if *external {
                    o matches ExecOutcome::PendingImport { table_id, frame } && table_id == old(self).store.next_table_id && frame.spec_rows().len() == 1
                        && frame.spec_rows()[0].view_cells() == spec_id_name_row(
                        table_id,
                        name@[1]@,
                    )
                } else {
                    o matches ExecOutcome::Frame(f) && f.spec_rows().len() == 1
                        && f.spec_rows()[0].view_cells() == spec_id_name_row(
                        old(self).store.next_table_id,
                        name@[1]@,
                    )
                }))
                &&& (r is Err ==> *final(self) == *old(self))
                &&& (!decls_map(columns@) ==> r is Err)
                &&& (decls_map(columns@) && !has_schema(old(self).store.schemas@, name@[0]@) ==> (
                r matches Err(e) && e.message@ == "Schema "@ + name@[0]@ + " does not exist"@))
                &&& (decls_map(columns@) && some_table_named(
                    old(self).store.schemas@,
                    old(self).store.tables@,
                    name@[0]@,
                    name@[1]@,
                ) ==> (r matches Err(e) && e.message@ == "Table "@ + name@[0]@ + "."@ + name@[1]@
                    + " already exists"@))
                &&& (decls_map(columns@) && has_schema(old(self).store.schemas@, name@[0]@)
                    && !some_table_named(
                    old(self).store.schemas@,
                    old(self).store.tables@,
                    name@[0]@,
                    name@[1]@,
                ) ==> r is Ok)
            }),
            stmt matches crate::statement::Statement::CreateIndex(cis) ==> (cis.table_name@.len()
                != 2 ==> (r matches Err(e) && e.message@
                == "Schema's name should be present in table name but found: "@ + spec_join_dot(
                cis.table_name@,
            ) && *final(self) == *old(self))) && (cis.table_name@.len() == 2 ==> {
                &&& (!index_cols_plain(cis.columns@) ==> (r matches Err(e) && e.message@
                    == "Unsupported column expression in index"@ && *final(self) == *old(self)))
                &&& (index_cols_plain(cis.columns@) ==> (forall|tid: u64|
                    table_named(
                        old(self).store.schemas@,
                        old(self).store.tables@,
                        cis.table_name@[0]@,
                        cis.table_name@[1]@,
                        tid,
                        true,
                    ) ==> (r matches Err(e) && e.message@ == "Table "@ + cis.table_name@[0]@ + "."@
                        + cis.table_name@[1]@ + " has data"@)))
                &&& (r is Ok ==> final(self).store.indexes@.len() == old(self).store.indexes@.len() + 1)
                &&& (r is Err ==> *final(self) == *old(self))
                &&& (index_cols_plain(cis.columns@) && !has_schema(
                    old(self).store.schemas@,
                    cis.table_name@[0]@,
                ) ==> (r matches Err(e) && e.message@ == "Schema "@ + cis.table_name@[0]@
                    + " does not exist"@))
                &&& (index_cols_plain(cis.columns@) ==> (forall|tid: u64|
                    table_named(
                        old(self).store.schemas@,
                        old(self).store.tables@,
                        cis.table_name@[0]@,
                        cis.table_name@[1]@,
                        tid,
                        false,
                    ) ==> r is Ok))
            }),
            stmt matches crate::statement::Statement::Drop { object_type, names } ==> {
                &&& (object_type == crate::statement::ObjectType::Other ==> (r matches Err(e)
                    && e.message@ == "Unsupported drop operation"@ && *final(self) == *old(self)))
                &&& (object_type == crate::statement::ObjectType::Schema ==> {
                    &&& (r is Ok <==> has_schema(
                        old(self).store.schemas@,
                        spec_join_dot(names@[0]@),
                    ))
                    &&& (r is Ok ==> !has_schema(
                        final(self).store.schemas@,
                        spec_join_dot(names@[0]@),
                    ))
                    &&& (r matches Ok(o) ==> (o matches ExecOutcome::Frame(f)
                        && crate::workbench::spec_empty_frame(f)))
                    &&& (r is Err ==> *final(self) == *old(self))
                })
                &&& (object_type == crate::statement::ObjectType::Table && names@[0]@.len() != 2
                    ==> (r matches Err(e) && e.message@
                    == "Schema's name should be present in table name but found: "@
                    + spec_join_dot(names@[0]@) && *final(self) == *old(self)))
                &&& (object_type == crate::statement::ObjectType::Table && names@[0]@.len() == 2
                    ==> {
                    &&& (r is Ok <==> some_table_named(
                        old(self).store.schemas@,
                        old(self).store.tables@,
                        names@[0]@[0]@,
                        names@[0]@[1]@,
                    ))
                    &&& (!has_schema(old(self).store.schemas@, names@[0]@[0]@) ==> (
                    r matches Err(e) && e.message@ == "Schema "@ + names@[0]@[0]@
                        + " does not exist"@))
                    &&& (has_schema(old(self).store.schemas@, names@[0]@[0]@)
                        && !some_table_named(
                        old(self).store.schemas@,
                        old(self).store.tables@,
                        names@[0]@[0]@,
                        names@[0]@[1]@,
                    ) ==> (r matches Err(e) && e.message@ == "Table "@ + names@[0]@[0]@ + "."@
                        + names@[0]@[1]@ + " does not exist"@))
                    &&& (r is Ok ==> !some_table_named(
                        final(self).store.schemas@,
                        final(self).store.tables@,
                        names@[0]@[0]@,
                        names@[0]@[1]@,
                    ))
                    &&& (r matches Ok(o) ==> (o matches ExecOutcome::Frame(f)
                        && crate::workbench::spec_empty_frame(f)))
                    &&& (r is Err ==> *final(self) == *old(self))
                })
            },
            stmt matches crate::statement::Statement::Insert { table_name, columns, source } ==> {
                &&& (source matches crate::statement::InsertSource::Other ==> (r matches Err(e)
                    && e.message@ == "Data should be present in query. Your query was '"@ + q@
                    + "'"@ && *final(self) == *old(self)))
                &&& (source matches crate::statement::InsertSource::Values(data) ==> {
                    &&& (table_name@.len() != 2 ==> (r matches Err(e) && e.message@
                        == "Schema's name should be present in query (boo.table1). Your query was '"@
                        + q@ + "'"@ && *final(self) == *old(self)))
                    &&& (table_name@.len() == 2 ==> {
                        &&& (r matches Ok(o) ==> (o matches ExecOutcome::Pending(p)
                            && p.row_count == data@.len() && pending_wf(final(self).store, p)
                            && p.wal_ids@.len() <= data@.len()))
                        &&& (r is Err ==> *final(self) == *old(self))
                        &&& (r is Ok ==> final(self).store.wals@.len() == old(self).store.wals@.len() + spec_chunk_count(
                            data@.len(),
                            old(self).wal_chunk_size as nat,
                        ))
                        &&& (r is Err ==> ({
                            ||| !has_schema(old(self).store.schemas@, table_name@[0]@)
                            ||| !some_table_named(
                                old(self).store.schemas@,
                                old(self).store.tables@,
                                table_name@[0]@,
                                table_name@[1]@,
                            )
                            ||| exists|ti: int|
                                {
                                    let rc = resolved_cols(
                                        (#[trigger] old(self).store.tables@[ti]).columns@,
                                        columns@,
                                    );
                                    &&& 0 <= ti < old(self).store.tables@.len()
                                    &&& schema_named(
                                        old(self).store.schemas@,
                                        table_name@[0]@,
                                        old(self).store.tables@[ti].schema_id,
                                    )
                                    &&& old(self).store.tables@[ti].name@ == table_name@[1]@
                                    &&& {
                                        ||| !all_cols_present(
                                            old(self).store.tables@[ti].columns@,
                                            columns@,
                                        )
                                        ||| !cols_fit(rc)
                                        ||| exists|j: int|
                                            0 <= j < data@.len() && !row_parses(
                                                (#[trigger] data@[j])@,
                                                rc,
                                                preps@[j]@,
                                            )
                                    }
                                }
                        }))
                    })
                })
            },
    {
        match stmt {
            crate::statement::Statement::Other => Err(
                CubeError::user(
                    String::from_str("Unsupported SQL: '").concat(q).concat("'"),
                ),
            ),
            crate::statement::Statement::Query => Ok(ExecOutcome::Delegated),
            crate::statement::Statement::SetVariable => Ok(
                ExecOutcome::Frame(DataFrame::empty()),
            ),
            crate::statement::Statement::ShowVariable { variable } => {
                proof {
                    reveal_strlit("schemas");
                    reveal_strlit("tables");
                    reveal_strlit("chunks");
                    reveal_strlit("indexes");
                    reveal_strlit("partitions");
                }
                match self.exec_show(variable) {
                    Ok(f) => Ok(ExecOutcome::Frame(f)),
                    Err(e) => Err(e),
                }
            },
            crate::statement::Statement::CreateSchema { schema_name, if_not_exists } => {
                let f = self.create_schema(schema_name.clone(), *if_not_exists)?;
                Ok(ExecOutcome::Frame(f))
            },
            crate::statement::Statement::CreateTable {
                name,
                columns,
                external,
                location,
                indexes,
            } => {
                if name.len() != 2 {
                    return Err(
                        CubeError::user(
                            String::from_str(
                                "Schema's name should be present in table name but found: ",
                            ).concat(join_dot(name).as_str()),
                        ),
                    );
                }
                let (id, f) = self.create_table(
                    &name[0],
                    &name[1],
                    columns,
                    *external,
                    location,
                    indexes,
                )?;
                proof {
                    assert(decls_map(columns@));
                    assert(has_schema(old(self).store.schemas@, name@[0]@));
                    assert(!some_table_named(
                        old(self).store.schemas@,
                        old(self).store.tables@,
                        name@[0]@,
                        name@[1]@,
                    ));
                    assert(self.store.schemas@ == old(self).store.schemas@);
                    assert(self.store.tables@.len() == old(self).store.tables@.len() + 1);
                    assert(self.store.tables@.last().name@ == name@[1]@);
                    assert(schema_named(
                        old(self).store.schemas@,
                        name@[0]@,
                        self.store.tables@.last().schema_id,
                    ));
                    assert(has_schema(self.store.schemas@, name@[0]@));
                    assert(some_table_named(
                        self.store.schemas@,
                        self.store.tables@,
                        name@[0]@,
                        name@[1]@,
                    )) by {
                        let t = self.store.tables@.last();
                        assert(schema_named(self.store.schemas@, name@[0]@, t.schema_id));
                        let i = choose|i: int|
                            0 <= i < self.store.schemas@.len() && (
                            #[trigger] self.store.schemas@[i]).name@ == name@[0]@
                                && self.store.schemas@[i].id == t.schema_id;
                        let j = self.store.tables@.len() - 1;
                        assert(self.store.tables@[j] == t);
                        assert(self.store.tables@[j].schema_id == self.store.schemas@[i].id);
                        assert(self.store.tables@[j].name@ == name@[1]@);
                        assert(table_named(
                            self.store.schemas@,
                            self.store.tables@,
                            name@[0]@,
                            name@[1]@,
                            self.store.tables@[j].id,
                            self.store.tables@[j].has_data,
                        ));
                    }
                }
                if *external {
                    Ok(ExecOutcome::PendingImport { table_id: id, frame: f })
                } else {
                    Ok(ExecOutcome::Frame(f))
                }
            },
            crate::statement::Statement::CreateIndex(cis) => {
                if cis.table_name.len() != 2 {
                    return Err(
                        CubeError::user(
                            String::from_str(
                                "Schema's name should be present in table name but found: ",
                            ).concat(join_dot(&cis.table_name).as_str()),
                        ),
                    );
                }
                let mut cols: Vec<String> = Vec::new();
                let mut i: usize = 0;
                while i < cis.columns.len()
                    invariant
                        i <= cis.columns@.len(),
                        forall|t: int|
                            0 <= t < i ==> (#[trigger] cis.columns@[t]) matches
                                crate::statement::IndexColumn::Ident(_),
                        cols@.len() == i,
                    decreases cis.columns@.len() - i,
                {
                    match &cis.columns[i] {
                        crate::statement::IndexColumn::Ident(s) => {
                            cols.push(s.clone());
                        },
                        crate::statement::IndexColumn::Other(_) => {
                            proof {
                                assert(!index_cols_plain(cis.columns@)) by {
                                    assert(!((#[trigger] cis.columns@[i as int]) matches
                                        crate::statement::IndexColumn::Ident(_)));
                                }
                            }
                            return Err(
                                CubeError::user(
                                    String::from_str("Unsupported column expression in index"),
                                ),
                            );
                        },
                    }
                    i += 1;
                }
                proof {
                    assert(index_cols_plain(cis.columns@));
                }
                let f = match self.create_index(
                    &cis.table_name[0],
                    &cis.table_name[1],
                    cis.name.clone(),
                    cols,
                ) {
                    Ok(f) => f,
                    Err(e) => {
                        return Err(e);
                    },
                };
                proof {
                    assert forall|tid: u64|
                        !table_named(
                            old(self).store.schemas@,
                            old(self).store.tables@,
                            cis.table_name@[0]@,
                            cis.table_name@[1]@,
                            tid,
                            true,
                        ) by {
                        if table_named(
                            old(self).store.schemas@,
                            old(self).store.tables@,
                            cis.table_name@[0]@,
                            cis.table_name@[1]@,
                            tid,
                            true,
                        ) {
                            assert(false);
                        }
                    }
                }
                Ok(ExecOutcome::Frame(f))
            },
            crate::statement::Statement::Drop { object_type, names } => {
                match object_type {
                    crate::statement::ObjectType::Schema => {
                        let name = join_dot(&names[0]);
                        self.store.drop_schema(&name)?;
                        Ok(ExecOutcome::Frame(DataFrame::empty()))
                    },
                    crate::statement::ObjectType::Table => {
                        let parts = &names[0];
                        if parts.len() != 2 {
                            return Err(
                                CubeError::user(
                                    String::from_str(
                                        "Schema's name should be present in table name but found: ",
                                    ).concat(join_dot(parts).as_str()),
                                ),
                            );
                        }
                        let sid: u64 = match self.store.find_schema(&parts[0]) {
                            Some(row) => row.id,
                            None => {
                                proof {
                                    // No schema of the name, so no table can
                                    // be named under it.
                                    assert forall|tid2: u64, hd: bool|
                                        !table_named(
                                            self.store.schemas@,
                                            self.store.tables@,
                                            names@[0]@[0]@,
                                            names@[0]@[1]@,
                                            tid2,
                                            hd,
                                        ) by {
                                        if table_named(
                                            self.store.schemas@,
                                            self.store.tables@,
                                            names@[0]@[0]@,
                                            names@[0]@[1]@,
                                            tid2,
                                            hd,
                                        ) {
                                            let i = choose|i: int|
                                                0 <= i < self.store.schemas@.len() && (
                                                #[trigger] self.store.schemas@[i]).name@
                                                    == names@[0]@[0]@;
                                            assert(has_schema(
                                                self.store.schemas@,
                                                names@[0]@[0]@,
                                            ));
                                        }
                                    }
                                }
                                return Err(
                                    CubeError::user(
                                        String::from_str("Schema ").concat(
                                            parts[0].as_str(),
                                        ).concat(" does not exist"),
                                    ),
                                );
                            },
                        };
                        let tid: u64 = match self.store.find_table(sid, &parts[1]) {
                            Some(t) => t.id,
                            None => {
                                proof {
                                    assert(schema_named(
                                        self.store.schemas@,
                                        names@[0]@[0]@,
                                        sid,
                                    ));
                                    crate::metastore::lemma_named_schema_unique(
                                        self.store.schemas@,
                                        names@[0]@[0]@,
                                        sid,
                                    );
                                    assert forall|tid2: u64, hd: bool|
                                        !table_named(
                                            self.store.schemas@,
                                            self.store.tables@,
                                            names@[0]@[0]@,
                                            names@[0]@[1]@,
                                            tid2,
                                            hd,
                                        ) by {
                                        if table_named(
                                            self.store.schemas@,
                                            self.store.tables@,
                                            names@[0]@[0]@,
                                            names@[0]@[1]@,
                                            tid2,
                                            hd,
                                        ) {
                                            let (i, j): (int, int) = choose|i: int, j: int|
                                                {
                                                    &&& 0 <= i < self.store.schemas@.len()
                                                    &&& (#[trigger] self.store.schemas@[i]).name@
                                                        == names@[0]@[0]@
                                                    &&& 0 <= j < self.store.tables@.len()
                                                    &&& (#[trigger] self.store.tables@[j]).schema_id
                                                        == self.store.schemas@[i].id
                                                    &&& self.store.tables@[j].name@
                                                        == names@[0]@[1]@
                                                };
                                            assert(schema_named(
                                                self.store.schemas@,
                                                names@[0]@[0]@,
                                                self.store.schemas@[i].id,
                                            ));
                                            assert(crate::metastore::has_table(
                                                self.store.tables@,
                                                sid,
                                                names@[0]@[1]@,
                                            ));
                                        }
                                    }
                                }
                                return Err(
                                    CubeError::user(
                                        String::from_str("Table ").concat(
                                            parts[0].as_str(),
                                        ).concat(".").concat(parts[1].as_str()).concat(
                                            " does not exist",
                                        ),
                                    ),
                                );
                            },
                        };
                        let ghost pre_drop = self.store;
                        proof {
                            // The found row witnesses the named table.
                            assert(schema_named(pre_drop.schemas@, names@[0]@[0]@, sid));
                            let i = choose|i: int|
                                0 <= i < pre_drop.schemas@.len() && (
                                #[trigger] pre_drop.schemas@[i]).name@ == names@[0]@[0]@
                                    && pre_drop.schemas@[i].id == sid;
                            let j = choose|j: int|
                                0 <= j < pre_drop.tables@.len() && (
                                #[trigger] pre_drop.tables@[j]).schema_id == sid
                                    && pre_drop.tables@[j].name@ == names@[0]@[1]@;
                            assert(table_named(
                                pre_drop.schemas@,
                                pre_drop.tables@,
                                names@[0]@[0]@,
                                names@[0]@[1]@,
                                pre_drop.tables@[j].id,
                                pre_drop.tables@[j].has_data,
                            ));
                        }
                        self.store.drop_table(tid)?;
                        proof {
                            assert(schema_named(pre_drop.schemas@, names@[0]@[0]@, sid));
                            crate::metastore::lemma_drop_table_removes_name(
                                pre_drop,
                                self.store,
                                sid,
                                tid,
                                names@[0]@[0]@,
                                names@[0]@[1]@,
                            );
                        }
                        Ok(ExecOutcome::Frame(DataFrame::empty()))
                    },
                    crate::statement::ObjectType::Other => Err(
                        CubeError::user(String::from_str("Unsupported drop operation")),
                    ),
                }
            },
            crate::statement::Statement::Insert { table_name, columns, source } => {
                let data = match source {
                    crate::statement::InsertSource::Values(data) => data,
                    crate::statement::InsertSource::Other => {
                        return Err(
                            CubeError::user(
                                String::from_str("Data should be present in query. Your query was '")
                                    .concat(q).concat("'"),
                            ),
                        );
                    },
                };
                if table_name.len() != 2 {
                    return Err(
                        CubeError::user(
                            String::from_str(
                                "Schema's name should be present in query (boo.table1). Your query was '",
                            ).concat(q).concat("'"),
                        ),
                    );
                }
                let p = self.insert_data(&table_name[0], &table_name[1], columns, data, preps)?;
                Ok(ExecOutcome::Pending(p))
            },
        }
    }
}

} // verus!
