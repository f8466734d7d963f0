//! Where the rows of a query come from: the tables of a store, and the rows that the
//! query itself has materialised.
use vstd::prelude::*;

use crate::catalog::{clone_table_def, ColType, ColumnDef, ColumnDefV, ForeignKeySpec, FtsIndexDef, FtsIndexDefV, IndexDef, IndexDefV, TableDef, TableDefV, VectorIndexDef, VectorIndexDefV, VectorMetric};
#[allow(unused_imports)]
use crate::catalog::{column_defs_v, strings_v};
use crate::error::{Error, ErrorV};
use crate::exec::rows::positions_of;
#[allow(unused_imports)]
use crate::exec::rows::{positions, rows_wide};
#[allow(unused_imports)]
use crate::exec::schema::def_ok;
use crate::fts::ranking::{RankStats, RankStatsV};
use crate::fts::Query;
#[allow(unused_imports)]
use crate::fts::query::QueryV;
use crate::record::{clone_rows, Value, ValueV};
#[allow(unused_imports)]
use crate::record::{row_view, rows_view};
use crate::text::str_eq;

verus! {

/// One end of a range: the value, and whether it belongs to the range.
pub open spec fn bound_v(b: Option<(&Value, bool)>) -> Option<(ValueV, bool)> {
    match b {
        Some((v, inclusive)) => Some((v@, inclusive)),
        None => None,
    }
}

/// `r` is the list of row identifiers `want`, or its error.
pub open spec fn ids(r: Result<Vec<i64>, Error>, want: Result<Seq<i64>, ErrorV>) -> bool {
    match want {
        Ok(s) => r is Ok && r->Ok_0@ == s,
        Err(e) => r is Err && r->Err_0@ == e,
    }
}

/// A store from which queries read. Each method gives what the specification function
/// beside it says; rows are as wide as their table.
pub trait DataSource {
    spec fn find_table(&self, name: Seq<char>) -> Result<Option<TableDefV>, ErrorV>;

    spec fn row_of(&self, table: TableDefV, rowid: i64) -> Result<Option<Seq<ValueV>>, ErrorV>;

    spec fn all_rows(&self, table: TableDefV) -> Result<Seq<Seq<ValueV>>, ErrorV>;

    spec fn equal_ids(&self, table: TableDefV, index: IndexDefV, values: Seq<ValueV>) -> Result<
        Seq<i64>,
        ErrorV,
    >;

    spec fn range_ids(
        &self,
        table: TableDefV,
        index: IndexDefV,
        lo: Option<(ValueV, bool)>,
        hi: Option<(ValueV, bool)>,
    ) -> Result<Seq<i64>, ErrorV>;

    spec fn view_text(&self, name: Seq<char>) -> Result<Option<Seq<char>>, ErrorV>;

    spec fn matching_ids(&self, table: TableDefV, index: FtsIndexDefV, query: QueryV) -> Result<
        Seq<i64>,
        ErrorV,
    >;

    spec fn rank_stats(&self, fts_id: u32, query: QueryV) -> Result<RankStatsV, ErrorV>;

    spec fn near_ids(
        &self,
        index: VectorIndexDefV,
        query: Seq<u8>,
        nprobe: usize,
        limit: usize,
    ) -> Result<Seq<i64>, ErrorV>;

    spec fn nearest_ids(
        &self,
        table: TableDefV,
        column: int,
        query: Seq<u8>,
        metric: VectorMetric,
        k: usize,
    ) -> Result<Seq<i64>, ErrorV>;

    /// The table of a name.
    fn table(&self, name: &str) -> (r: Result<Option<TableDef>, Error>)
        ensures
            (match self.find_table(name@) {
                Ok(Some(d)) => r is Ok && r->Ok_0 is Some && (r->Ok_0)->0@ == d && def_ok(d),
                Ok(None) => r is Ok && r->Ok_0 is None,
                Err(e) => r is Err && r->Err_0@ == e,
            }),
    ;

    /// The row with an identifier.
    fn get_row(&self, table: &TableDef, rowid: i64) -> (r: Result<Option<Vec<Value>>, Error>)
        ensures
            (match self.row_of(table@, rowid) {
                Ok(Some(row)) => r is Ok && r->Ok_0 is Some && row_view((r->Ok_0)->0@) == row
                    && row.len() == table@.columns.len(),
                Ok(None) => r is Ok && r->Ok_0 is None,
                Err(e) => r is Err && r->Err_0@ == e,
            }),
    ;

    /// All rows of a table, in the order of their identifiers.
    fn scan_rows(&self, table: &TableDef) -> (r: Result<Vec<Vec<Value>>, Error>)
        ensures
            (match self.all_rows(table@) {
                Ok(rows) => r is Ok && rows_view(r->Ok_0@) == rows && rows_wide(
                    rows,
                    table@.columns.len() as int,
                ),
                Err(e) => r is Err && r->Err_0@ == e,
            }),
    ;

    /// The rows whose indexed columns equal `values`.
    fn index_lookup(&self, table: &TableDef, idx: &IndexDef, values: &Vec<Value>) -> (r: Result<
        Vec<i64>,
        Error,
    >)
        ensures
            ids(r, self.equal_ids(table@, idx@, row_view(values@))),
    ;

    /// The rows in a range of an index.
    fn index_range(
        &self,
        table: &TableDef,
        idx: &IndexDef,
        lo: Option<(&Value, bool)>,
        hi: Option<(&Value, bool)>,
    ) -> (r: Result<Vec<i64>, Error>)
        ensures
            ids(r, self.range_ids(table@, idx@, bound_v(lo), bound_v(hi))),
    ;

    /// The SELECT of a view, as text.
    fn view(&self, name: &str) -> (r: Result<Option<String>, Error>)
        ensures
            (match self.view_text(name@) {
                Ok(Some(s)) => r is Ok && r->Ok_0 is Some && (r->Ok_0)->0@ == s,
                Ok(None) => r is Ok && r->Ok_0 is None,
                Err(e) => r is Err && r->Err_0@ == e,
            }),
    ;

    /// The rows that a full-text query matches.
    fn fts_search(&self, table: &TableDef, fts: &FtsIndexDef, query: &Query) -> (r: Result<
        Vec<i64>,
        Error,
    >)
        ensures
            ids(r, self.matching_ids(table@, fts@, query@)),
    ;

    /// What the rows of a full-text index are ranked by for a query.
    fn fts_stats(&self, fts_id: u32, query: &Query) -> (r: Result<RankStats, Error>)
        ensures
            (match self.rank_stats(fts_id, query@) {
                Ok(s) => r is Ok && r->Ok_0@ == s,
                Err(e) => r is Err && r->Err_0@ == e,
            }),
    ;

    /// Candidates of a vector index for a packed vector.
    fn vector_search(&self, vidx: &VectorIndexDef, query: &Vec<u8>, nprobe: usize, limit: usize) -> (r:
        Result<Vec<i64>, Error>)
        ensures
            ids(r, self.near_ids(vidx@, query@, nprobe, limit)),
    ;

    /// The `k` rows nearest to a packed vector.
    fn knn_exact(
        &self,
        table: &TableDef,
        col: usize,
        query: &Vec<u8>,
        metric: VectorMetric,
        k: usize,
    ) -> (r: Result<Vec<i64>, Error>)
        ensures
            ids(r, self.nearest_ids(table@, col as int, query@, metric, k)),
    ;
}

// --- rows that the query has materialised ---

/// A named result that a query can read from like a table.
#[derive(Debug)]
pub struct CteEntry {
    pub name: String,
    pub def: TableDef,
    pub rows: Vec<Vec<Value>>,
}

#[verifier::ext_equal]
pub ghost struct CteEntryV {
    pub name: Seq<char>,
    pub def: TableDefV,
    pub rows: Seq<Seq<ValueV>>,
}

impl View for CteEntry {
    type V = CteEntryV;

    open spec fn view(&self) -> CteEntryV {
        CteEntryV { name: self.name@, def: self.def@, rows: rows_view(self.rows@) }
    }
}

pub open spec fn entries_v(s: Seq<CteEntry>) -> Seq<CteEntryV> {
    Seq::new(s.len(), |i: int| s[i]@)
}

/// The rows of an entry are those of its table.
pub open spec fn entry_ok(e: CteEntryV) -> bool {
    def_ok(e.def) && rows_wide(e.rows, e.def.columns.len() as int)
}

pub open spec fn entries_ok(s: Seq<CteEntryV>) -> bool {
    forall|i: int| 0 <= i < s.len() ==> entry_ok(#[trigger] s[i])
}

impl Clone for CteEntry {
    fn clone(&self) -> (r: Self)
        ensures
            r@ == self@,
    {
        CteEntry {
            name: self.name.clone(),
            def: clone_table_def(&self.def),
            rows: clone_rows(&self.rows),
        }
    }
}

pub fn clone_entries(v: &Vec<CteEntry>) -> (r: Vec<CteEntry>)
    ensures
        entries_v(r@) == entries_v(v@),
{
    let mut out: Vec<CteEntry> = Vec::new();
    let n: usize = v.len();
    for i in 0..n
        invariant
            n == v@.len(),
            entries_v(out@) == entries_v(v@).take(i as int),
    {
        let ghost before = entries_v(out@);
        out.push(v[i].clone());
        assert(entries_v(out@) =~= before.push(v@[i as int]@));
        assert(entries_v(v@).take(i + 1) =~= before.push(v@[i as int]@));
    }
    assert(entries_v(v@).take(n as int) =~= entries_v(v@));
    out
}

/// The first entry of a name from `i` on.
pub open spec fn entry_named(s: Seq<CteEntryV>, name: Seq<char>, i: int) -> Option<int>
    decreases s.len() - i,
{
    if i < 0 || i >= s.len() {
        None
    } else if s[i].name == name {
        Some(i)
    } else {
        entry_named(s, name, i + 1)
    }
}

pub fn find_entry(s: &Vec<CteEntry>, name: &str) -> (r: Option<usize>)
    ensures
        (match entry_named(entries_v(s@), name@, 0) {
            Some(i) => r is Some && r->0 == i && i < s@.len(),
            None => r is None,
        }),
{
    let n: usize = s.len();
    for i in 0..n
        invariant
            n == s@.len(),
            entry_named(entries_v(s@), name@, 0) == entry_named(entries_v(s@), name@, i as int),
    {
        assert(entries_v(s@)[i as int] == s@[i as int]@);
        if str_eq(s[i].name.as_str(), name) {
            return Some(i);
        }
    }
    None
}

/// A table for the columns of a result: it has no identifiers, indexes or constraints,
/// and its types are not read.
pub open spec fn result_table(name: Seq<char>, columns: Seq<Seq<char>>) -> TableDefV {
    TableDefV {
        name,
        table_id: u32::MAX,
        rowid_alias: None,
        columns: Seq::new(columns.len(), |i: int| result_column(columns[i])),
        indexes: Seq::empty(),
        fts_indexes: Seq::empty(),
        vector_indexes: Seq::empty(),
        logical_order: positions(columns.len()),
        foreign_keys: Seq::empty(),
        checks: Seq::empty(),
    }
}

pub open spec fn result_column(name: Seq<char>) -> ColumnDefV {
    ColumnDefV { name, col_type: ColType::Integer, not_null: false, default: None, dropped: false }
}

pub fn synthetic_cte_def(name: &str, columns: &Vec<String>) -> (r: TableDef)
    ensures
        r@ == result_table(name@, strings_v(columns@)),
        def_ok(r@),
        r@.columns.len() == columns@.len(),
{
    let n: usize = columns.len();
    let mut cols: Vec<ColumnDef> = Vec::new();
    let ghost want = Seq::new(columns@.len(), |i: int| result_column(strings_v(columns@)[i]));
    for i in 0..n
        invariant
            n == columns@.len(),
            want == Seq::new(columns@.len(), |i: int| result_column(strings_v(columns@)[i])),
            column_defs_v(cols@) == want.take(i as int),
    {
        let ghost before = column_defs_v(cols@);
        let c = ColumnDef {
            name: columns[i].clone(),
            col_type: ColType::Integer,
            not_null: false,
            default: None,
            dropped: false,
        };
        let ghost cv = c@;
        cols.push(c);
        assert(column_defs_v(cols@) =~= before.push(cv));
        assert(cv == want[i as int]);
        assert(want.take(i + 1) =~= before.push(cv));
    }
    assert(want.take(n as int) =~= want);
    let indexes: Vec<IndexDef> = Vec::new();
    let fts_indexes: Vec<FtsIndexDef> = Vec::new();
    let vector_indexes: Vec<VectorIndexDef> = Vec::new();
    let foreign_keys: Vec<ForeignKeySpec> = Vec::new();
    let checks: Vec<String> = Vec::new();
    let r = TableDef {
        name: name.to_owned(),
        table_id: u32::MAX,
        rowid_alias: None,
        columns: cols,
        indexes,
        fts_indexes,
        vector_indexes,
        logical_order: positions_of(n),
        foreign_keys,
        checks,
    };
    proof {
        let cs = strings_v(columns@);
        assert(r@.indexes =~= Seq::empty());
        assert(r@.fts_indexes =~= Seq::empty());
        assert(r@.vector_indexes =~= Seq::empty());
        assert(r@.foreign_keys =~= Seq::empty());
        assert(r@.checks =~= Seq::empty());
        assert(r@.columns =~= result_table(name@, cs).columns);
        assert(r@.logical_order =~= result_table(name@, cs).logical_order);
    }
    r
}

} // verus!
