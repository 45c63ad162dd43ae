//! The statements the service dispatches on, as the statement parser
//! surfaces them: plain values only, with multi-part object names kept as
//! their parts.
use vstd::prelude::*;

use vstd::string::StringSliceAdditionalSpecFns;

use crate::typemap::ColumnDecl;
use crate::values::SqlExpr;

verus! {

/// What a `DROP` statement targets.
#[derive(Debug, Clone, Copy, PartialEq, Eq, Structural)]
pub enum ObjectType {
    Schema,
    Table,
    Other,
}

/// A column expression in a `CREATE INDEX` column list: a plain identifier,
/// or any other expression carried as its text.
#[derive(Debug, Clone, PartialEq, Eq)]
pub enum IndexColumn {
    Ident(String),
    Other(String),
}

/// The text of an index column expression.
pub open spec fn index_column_text(c: IndexColumn) -> Seq<char> {
    match c {
        IndexColumn::Ident(s) => s@,
        IndexColumn::Other(s) => s@,
    }
}

/// A `CREATE INDEX` statement, standalone or embedded in `CREATE TABLE`.
#[derive(Debug, Clone, PartialEq, Eq)]
pub struct CreateIndexStatement {
    pub name: String,
    pub table_name: Vec<String>,
    pub columns: Vec<IndexColumn>,
}

/// The body of an `INSERT`: a `VALUES` list, or anything else.
#[derive(Debug, Clone, PartialEq, Eq)]
pub enum InsertSource {
    Values(Vec<Vec<SqlExpr>>),
    Other,
}

/// A parsed statement.
#[derive(Debug, Clone, PartialEq, Eq)]
pub enum Statement {
    CreateSchema { schema_name: String, if_not_exists: bool },
    CreateTable {
        name: Vec<String>,
        columns: Vec<ColumnDecl>,
        external: bool,
        location: Option<String>,
        indexes: Vec<CreateIndexStatement>,
    },
    CreateIndex(CreateIndexStatement),
    Drop { object_type: ObjectType, names: Vec<Vec<String>> },
    Insert { table_name: Vec<String>, columns: Vec<String>, source: InsertSource },
    Query,
    ShowVariable { variable: String },
    SetVariable,
    Other,
}

/// The structural facts the statement parser guarantees: a `DROP` names at
/// least one object.
pub open spec fn statement_wf(stmt: Statement) -> bool {
    stmt matches Statement::Drop { names, .. } ==> names@.len() >= 1
}

} // verus!

verus! {

/// The escape rewrite applied before parsing: every `\'` becomes `''`, read
/// over the query's bytes (both characters are ASCII, so the rewrite is
/// exact on UTF-8 text).
pub open spec fn spec_unescape(s: Seq<u8>) -> Seq<u8>
    decreases s.len(),
{
    if s.len() == 0 {
        Seq::empty()
    } else if s.len() >= 2 && s[0] == 92 && s[1] == 39 {
        seq![39u8, 39u8] + spec_unescape(s.skip(2))
    } else {
        seq![s[0]] + spec_unescape(s.skip(1))
    }
}

/// Rewrite every `\'` in the query's bytes to `''`, normalizing the escape
/// convention before parsing.
#[verifier::loop_isolation(false)]
pub fn unescape_quotes(q: &str) -> (r: Vec<u8>)
    ensures
        r@ == spec_unescape(q.spec_bytes()),
{
    let bytes: Vec<u8> = q.as_bytes_vec();
    let ghost full = bytes@;
    let mut r: Vec<u8> = Vec::new();
    let mut i: usize = 0;
    let n = bytes.len();
    proof {
        assert(full.skip(0) =~= full);
        assert(Seq::<u8>::empty() + spec_unescape(full.skip(0)) =~= spec_unescape(full));
    }
    while i < n
        invariant
            i <= n,
            r@ + spec_unescape(full.skip(i as int)) =~= spec_unescape(full),
        decreases n - i,
    {
        let b = bytes[i];
        if b == 92 && i + 1 < n && bytes[i + 1] == 39 {
            r.push(39);
            r.push(39);
            proof {
                assert(full.skip(i as int).skip(2) =~= full.skip(i + 2));
                assert(r@ + spec_unescape(full.skip(i + 2)) =~= spec_unescape(full));
            }
            i += 2;
        } else {
            r.push(b);
            proof {
                assert(full.skip(i as int).skip(1) =~= full.skip(i + 1));
                assert(r@ + spec_unescape(full.skip(i + 1)) =~= spec_unescape(full));
            }
            i += 1;
        }
    }
    proof {
        assert(full.skip(n as int) =~= Seq::<u8>::empty());
        assert(r@ =~= spec_unescape(full));
    }
    r
}

} // verus!
