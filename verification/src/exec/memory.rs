//! A store in memory: tables with their rows, and views.
//!
//! Indexes are not kept: the rows of an index are found by comparing keys. There are no
//! full-text and vector indexes.
use vstd::prelude::*;

use crate::catalog::{clone_table_def, FtsIndexDef, FtsIndexDefV, IndexDef, IndexDefV, TableDef, TableDefV, VectorIndexDef, VectorIndexDefV, VectorMetric};
use crate::bytes::lex_lt;
use crate::error::{Error, ErrorV};
#[allow(unused_imports)]
use crate::exec::journal::pairs_v;
use crate::exec::journal::sound_def;
#[allow(unused_imports)]
use crate::exec::schema::def_ok;
use crate::exec::source::DataSource;
#[allow(unused_imports)]
use crate::exec::source::bound_v;
use crate::fts::ranking::{RankStats, RankStatsV};
use crate::fts::Query;
#[allow(unused_imports)]
use crate::fts::query::QueryV;
use crate::keyenc::encode_index_value;
#[allow(unused_imports)]
use crate::keyenc::index_key;
use crate::record::{bytes_same, clone_row, Value, ValueV};
#[allow(unused_imports)]
use crate::record::{row_view, rows_view};
use crate::text::str_eq;

verus! {

struct MemoryTable {
    def: TableDef,
    rows: Vec<(i64, Vec<Value>)>,
}

/// Tables with their rows, and views.
pub struct MemoryStore {
    tables: Vec<MemoryTable>,
    views: Vec<(String, String)>,
}

/// A table of the store, by its contents.
pub ghost struct MemoryTableV {
    pub def: TableDefV,
    pub rows: Seq<(i64, Seq<ValueV>)>,
}

spec fn table_v(t: MemoryTable) -> MemoryTableV {
    MemoryTableV { def: t.def@, rows: pairs_v(t.rows@) }
}

/// The first table of a name from `i` on.
pub open spec fn table_at(ts: Seq<MemoryTableV>, name: Seq<char>, i: int) -> Option<int>
    decreases ts.len() - i,
{
    if i < 0 || i >= ts.len() {
        None
    } else if ts[i].def.name == name {
        Some(i)
    } else {
        table_at(ts, name, i + 1)
    }
}

pub open spec fn view_at(vs: Seq<(Seq<char>, Seq<char>)>, name: Seq<char>, i: int) -> Option<Seq<char>>
    decreases vs.len() - i,
{
    if i < 0 || i >= vs.len() {
        None
    } else if vs[i].0 == name {
        Some(vs[i].1)
    } else {
        view_at(vs, name, i + 1)
    }
}

/// The rows of a table; none where the store has no such table with as many columns.
pub open spec fn stored_rows(ts: Seq<MemoryTableV>, def: TableDefV) -> Seq<(i64, Seq<ValueV>)> {
    match table_at(ts, def.name, 0) {
        Some(i) => if ts[i].def.columns.len() == def.columns.len() {
            ts[i].rows
        } else {
            Seq::empty()
        },
        None => Seq::empty(),
    }
}

/// The row with an identifier from `i` on.
pub open spec fn row_with(rows: Seq<(i64, Seq<ValueV>)>, id: i64, i: int) -> Option<Seq<ValueV>>
    decreases rows.len() - i,
{
    if i < 0 || i >= rows.len() {
        None
    } else if rows[i].0 == id {
        Some(rows[i].1)
    } else {
        row_with(rows, id, i + 1)
    }
}

pub open spec fn only_rows(rows: Seq<(i64, Seq<ValueV>)>) -> Seq<Seq<ValueV>> {
    Seq::new(rows.len(), |i: int| rows[i].1)
}

/// The columns of a row have the keys of the values; `k` columns have been compared.
pub open spec fn keys_equal(row: Seq<ValueV>, columns: Seq<usize>, values: Seq<ValueV>, k: int) -> bool
    decreases columns.len() - k,
{
    if k < 0 || k >= columns.len() || k >= values.len() {
        true
    } else {
        columns[k] < row.len() && index_key(row[columns[k] as int]) == index_key(values[k]) && keys_equal(row, columns, values, k + 1)
    }
}

/// The rows from `i` on with the keys of the values.
pub open spec fn ids_equal(rows: Seq<(i64, Seq<ValueV>)>, columns: Seq<usize>, values: Seq<ValueV>, i: int) -> Seq<i64>
    decreases rows.len() - i,
{
    if i < 0 || i >= rows.len() {
        Seq::empty()
    } else if keys_equal(rows[i].1, columns, values, 0) {
        seq![rows[i].0] + ids_equal(rows, columns, values, i + 1)
    } else {
        ids_equal(rows, columns, values, i + 1)
    }
}

/// A key lies between two ends.
pub open spec fn key_within(key: Seq<u8>, lo: Option<(ValueV, bool)>, hi: Option<(ValueV, bool)>) -> bool {
    &&& lo is Some ==> lex_lt(index_key((lo->0).0), key) || ((lo->0).1 && index_key((lo->0).0) == key)
    &&& hi is Some ==> lex_lt(key, index_key((hi->0).0)) || ((hi->0).1 && index_key((hi->0).0) == key)
}

pub open spec fn row_within(row: Seq<ValueV>, columns: Seq<usize>, lo: Option<(ValueV, bool)>, hi: Option<(ValueV, bool)>) -> bool {
    columns.len() > 0 && columns[0] < row.len() && key_within(index_key(row[columns[0] as int]), lo, hi)
}

/// The rows from `i` on whose first indexed column lies between two ends.
pub open spec fn ids_within(rows: Seq<(i64, Seq<ValueV>)>, columns: Seq<usize>, lo: Option<(ValueV, bool)>, hi: Option<(ValueV, bool)>, i: int) -> Seq<i64>
    decreases rows.len() - i,
{
    if i < 0 || i >= rows.len() {
        Seq::empty()
    } else if row_within(rows[i].1, columns, lo, hi) {
        seq![rows[i].0] + ids_within(rows, columns, lo, hi, i + 1)
    } else {
        ids_within(rows, columns, lo, hi, i + 1)
    }
}

/// The error of an index that the store does not have.
pub open spec fn no_such_index() -> ErrorV {
    ErrorV::Store("el almacén en memoria no tiene índices de texto ni de vectores"@)
}

fn missing_index() -> (r: Error)
    ensures
        r@ == no_such_index(),
{
    Error::Store("el almacén en memoria no tiene índices de texto ni de vectores".to_owned())
}

fn key_of(v: &Value) -> (r: Vec<u8>)
    ensures
        r@ == index_key(v@),
{
    let mut out: Vec<u8> = Vec::new();
    encode_index_value(v, &mut out);
    assert(out@ =~= index_key(v@));
    out
}

fn key_less(a: &Vec<u8>, b: &Vec<u8>) -> (r: bool)
    ensures
        r == lex_lt(a@, b@),
{
    let mut i: usize = 0;
    assert(a@.skip(0) =~= a@);
    assert(b@.skip(0) =~= b@);
    while i < a.len() && i < b.len()
        invariant
            i <= a@.len(),
            i <= b@.len(),
            lex_lt(a@, b@) == lex_lt(a@.skip(i as int), b@.skip(i as int)),
        decreases a@.len() - i,
    {
        assert(a@.skip(i as int)[0] == a@[i as int]);
        assert(b@.skip(i as int)[0] == b@[i as int]);
        assert(a@.skip(i as int).drop_first() =~= a@.skip(i + 1));
        assert(b@.skip(i as int).drop_first() =~= b@.skip(i + 1));
        if a[i] != b[i] {
            return a[i] < b[i];
        }
        i = i + 1;
    }
    i < b.len()
}

impl MemoryStore {

    pub closed spec fn tables(&self) -> Seq<MemoryTableV> {
        Seq::new(self.tables@.len(), |i: int| table_v(self.tables@[i]))
    }

    pub closed spec fn views(&self) -> Seq<(Seq<char>, Seq<char>)> {
        Seq::new(self.views@.len(), |i: int| (self.views@[i].0@, self.views@[i].1@))
    }

    #[verifier::type_invariant]
    spec fn sound(self) -> bool {
        forall|i: int| 0 <= i < self.tables@.len() ==> table_sound(#[trigger] self.tables@[i])
    }

    /// A store with nothing in it.
    pub fn new() -> (r: MemoryStore)
        ensures
            r.tables().len() == 0,
            r.views().len() == 0,
    {
        MemoryStore { tables: Vec::new(), views: Vec::new() }
    }

    /// The store with a table more; none where the table or its rows are not sound.
    pub fn with_table(self, def: TableDef, rows: Vec<(i64, Vec<Value>)>) -> (r: Option<MemoryStore>)
        ensures
            (if def_ok(def@) && (forall|i: int| 0 <= i < rows@.len() ==> (#[trigger] rows@[i]).1@.len() == def@.columns.len()) {
                    r is Some && r->0.tables() == self.tables().push((MemoryTableV { def: def@, rows: pairs_v(rows@) })) && r->0.views() == self.views()
                } else {
                    r is None
            }),
    {
        proof {
            use_type_invariant(&self);
        }
        if !sound_def(&def) {
            return None;
        }
        let w: usize = def.columns.len();
        assert(def@.columns.len() == w);
        let n: usize = rows.len();
        for i in 0..n
            invariant
                n == rows@.len(),
                def@.columns.len() == w,
                forall|k: int| 0 <= k < i ==> (#[trigger] rows@[k]).1@.len() == w,
        {
            if rows[i].1.len() != w {
                assert(rows@[i as int].1@.len() != def@.columns.len());
                return None;
            }
        }
        let ghost t0 = self.tables@;
        let ghost before = self.tables();
        let mut tables = self.tables;
        let t = MemoryTable { def, rows };
        let ghost tv = table_v(t);
        tables.push(t);
        assert forall|i: int| 0 <= i < tables@.len() implies table_sound(#[trigger] tables@[i]) by {
            if i < t0.len() {
                assert(tables@[i] == t0[i]);
            }
        }
        let r = MemoryStore { tables, views: self.views };
        assert(r.tables() =~= before.push(tv));
        Some(r)
    }

    /// The store with a view more.
    pub fn with_view(self, name: String, select_sql: String) -> (r: MemoryStore)
        ensures
            r.tables() == self.tables(),
            r.views() == self.views().push((name@, select_sql@)),
    {
        proof {
            use_type_invariant(&self);
        }
        let ghost before = self.views();
        let ghost p = (name@, select_sql@);
        let mut views = self.views;
        views.push((name, select_sql));
        let r = MemoryStore { tables: self.tables, views };
        assert(r.views() =~= before.push(p));
        r
    }

    fn find(&self, name: &str) -> (r: Option<usize>)
        ensures
            (match table_at(self.tables(), name@, 0) {
                    Some(i) => r is Some && r->0 == i && i < self.tables@.len(),
                    None => r is None,
            }),
    {
        let n: usize = self.tables.len();
        let ghost ts = self.tables();
        for i in 0..n
            invariant
                n == self.tables@.len(),
                ts == self.tables(),
                table_at(ts, name@, 0) == table_at(ts, name@, i as int),
        {
            assert(ts[i as int] == table_v(self.tables@[i as int]));
            if str_eq(self.tables[i].def.name.as_str(), name) {
                return Some(i);
            }
        }
        None
    }

    /// The table of a definition.
    fn stored(&self, def: &TableDef) -> (r: Option<usize>)
        ensures
            (match r {
                    Some(i) => i < self.tables@.len() && stored_rows(self.tables(), def@) == pairs_v(self.tables@[i as int].rows@) && table_sound(self.tables@[i as int]) && self.tables@[i as int].def@.columns.len() == def@.columns.len(),
                    None => stored_rows(self.tables(), def@).len() == 0,
            }),
    {
        proof {
            use_type_invariant(self);
        }
        match self.find(def.name.as_str()) {
            None => None,
            Some(i) => {
                assert(self.tables()[i as int] == table_v(self.tables@[i as int]));
                assert(self.tables@[i as int].def@.columns.len() == self.tables@[i as int].def.columns@.len());
                assert(def@.columns.len() == def.columns@.len());
                if self.tables[i].def.columns.len() == def.columns.len() {
                    Some(i)
                } else {
                    None
                }
            },
        }
    }

}

spec fn table_sound(t: MemoryTable) -> bool {
    def_ok(t.def@) && forall|i: int| 0 <= i < t.rows@.len() ==> (#[trigger] t.rows@[i]).1@.len() == t.def@.columns.len()
}

fn keys_match(row: &Vec<Value>, columns: &Vec<usize>, values: &Vec<Value>) -> (r: bool)
    ensures
        r == keys_equal(row_view(row@), crate::catalog::usizes_v(columns@), row_view(values@), 0),
{
    let n: usize = columns.len();
    let m: usize = values.len();
    let ghost rv = row_view(row@);
    let ghost cv = crate::catalog::usizes_v(columns@);
    let ghost vv = row_view(values@);
    let mut k: usize = 0;
    while k < n && k < m
        invariant
            n == columns@.len(),
            m == values@.len(),
            k <= n,
            k <= m,
            rv == row_view(row@),
            cv == crate::catalog::usizes_v(columns@),
            vv == row_view(values@),
            keys_equal(rv, cv, vv, 0) == keys_equal(rv, cv, vv, k as int),
        decreases n - k,
    {
        assert(cv[k as int] == columns@[k as int]);
        assert(vv[k as int] == values@[k as int]@);
        let c: usize = columns[k];
        assert(rv.len() == row@.len());
        if c >= row.len() {
            return false;
        }
        assert(rv[c as int] == row@[c as int]@);
        let a = key_of(&row[c]);
        let b = key_of(&values[k]);
        if !bytes_same(&a, &b) {
            return false;
        }
        k = k + 1;
    }
    true
}

fn is_within(row: &Vec<Value>, columns: &Vec<usize>, lo: Option<(&Value, bool)>, hi: Option<(&Value, bool)>) -> (r: bool)
    ensures
        r == row_within(row_view(row@), crate::catalog::usizes_v(columns@), bound_v(lo), bound_v(hi)),
{
    assert(crate::catalog::usizes_v(columns@) =~= columns@);
    if columns.len() == 0 {
        return false;
    }
    let c: usize = columns[0];
    assert(row_view(row@).len() == row@.len());
    if c >= row.len() {
        return false;
    }
    assert(row_view(row@)[c as int] == row@[c as int]@);
    let key = key_of(&row[c]);
    if let Some((v, inclusive)) = lo {
        let end = key_of(v);
        if !(key_less(&end, &key) || (inclusive && bytes_same(&end, &key))) {
            return false;
        }
    }
    if let Some((v, inclusive)) = hi {
        let end = key_of(v);
        if !(key_less(&key, &end) || (inclusive && bytes_same(&end, &key))) {
            return false;
        }
    }
    true
}

impl DataSource for MemoryStore {

    closed spec fn find_table(&self, name: Seq<char>) -> Result<Option<TableDefV>, ErrorV> {
        match table_at(self.tables(), name, 0) {
            Some(i) => Ok(Some(self.tables()[i].def)),
            None => Ok(None),
        }
    }

    closed spec fn row_of(&self, table: TableDefV, rowid: i64) -> Result<Option<Seq<ValueV>>, ErrorV> {
        Ok(row_with(stored_rows(self.tables(), table), rowid, 0))
    }

    closed spec fn all_rows(&self, table: TableDefV) -> Result<Seq<Seq<ValueV>>, ErrorV> {
        Ok(only_rows(stored_rows(self.tables(), table)))
    }

    closed spec fn equal_ids(&self, table: TableDefV, index: IndexDefV, values: Seq<ValueV>) -> Result<Seq<i64>, ErrorV> {
        Ok(ids_equal(stored_rows(self.tables(), table), index.columns, values, 0))
    }

    closed spec fn range_ids(&self, table: TableDefV, index: IndexDefV, lo: Option<(ValueV, bool)>, hi: Option<(ValueV, bool)>) -> Result<Seq<i64>, ErrorV> {
        Ok(ids_within(stored_rows(self.tables(), table), index.columns, lo, hi, 0))
    }

    closed spec fn view_text(&self, name: Seq<char>) -> Result<Option<Seq<char>>, ErrorV> {
        Ok(view_at(self.views(), name, 0))
    }

    closed spec fn matching_ids(&self, table: TableDefV, index: FtsIndexDefV, query: QueryV) -> Result<Seq<i64>, ErrorV> {
        Err(no_such_index())
    }

    closed spec fn rank_stats(&self, fts_id: u32, query: QueryV) -> Result<RankStatsV, ErrorV> {
        Err(no_such_index())
    }

    closed spec fn near_ids(&self, index: VectorIndexDefV, query: Seq<u8>, nprobe: usize, limit: usize) -> Result<Seq<i64>, ErrorV> {
        Err(no_such_index())
    }

    closed spec fn nearest_ids(&self, table: TableDefV, column: int, query: Seq<u8>, metric: VectorMetric, k: usize) -> Result<Seq<i64>, ErrorV> {
        Err(no_such_index())
    }

    fn table(&self, name: &str) -> (r: Result<Option<TableDef>, Error>) {
        proof {
            use_type_invariant(self);
        }
        match self.find(name) {
            Some(i) => {
                assert(self.tables()[i as int] == table_v(self.tables@[i as int]));
                assert(table_sound(self.tables@[i as int]));
                Ok(Some(clone_table_def(&self.tables[i].def)))
            },
            None => Ok(None),
        }
    }

    fn get_row(&self, table: &TableDef, rowid: i64) -> (r: Result<Option<Vec<Value>>, Error>) {
        let i: usize = match self.stored(table) {
            Some(i) => i,
            None => {
                return Ok(None);
            },
        };
        let rows = &self.tables[i].rows;
        let n: usize = rows.len();
        let ghost rv = pairs_v(rows@);
        for k in 0..n
            invariant
                n == rows@.len(),
                rv == pairs_v(rows@),
                rv == stored_rows(self.tables(), table@),
                forall|q: int| 0 <= q < rows@.len() ==> (#[trigger] rows@[q]).1@.len() == table@.columns.len(),
                row_with(rv, rowid, 0) == row_with(rv, rowid, k as int),
        {
            assert(rv[k as int] == (rows@[k as int].0, row_view(rows@[k as int].1@)));
            if rows[k].0 == rowid {
                return Ok(Some(clone_row(&rows[k].1)));
            }
        }
        Ok(None)
    }

    fn scan_rows(&self, table: &TableDef) -> (r: Result<Vec<Vec<Value>>, Error>) {
        let i: usize = match self.stored(table) {
            Some(i) => i,
            None => {
                let none: Vec<Vec<Value>> = Vec::new();
                assert(rows_view(none@) =~= only_rows(stored_rows(self.tables(), table@)));
                return Ok(none);
            },
        };
        let rows = &self.tables[i].rows;
        let n: usize = rows.len();
        let ghost rv = pairs_v(rows@);
        let mut out: Vec<Vec<Value>> = Vec::new();
        for k in 0..n
            invariant
                n == rows@.len(),
                rv == pairs_v(rows@),
                out@.len() == k,
                forall|q: int| 0 <= q < k ==> row_view((#[trigger] out@[q])@) == rv[q].1,
        {
            out.push(clone_row(&rows[k].1));
        }
        assert(rows_view(out@) =~= only_rows(rv));
        assert forall|q: int| 0 <= q < rows_view(out@).len() implies (#[trigger] rows_view(out@)[q]).len() == table@.columns.len() by {
            assert(rows_view(out@)[q] == row_view(rows@[q].1@));
        }
        Ok(out)
    }

    fn index_lookup(&self, table: &TableDef, idx: &IndexDef, values: &Vec<Value>) -> (r: Result<Vec<i64>, Error>) {
        let mut out: Vec<i64> = Vec::new();
        let i: usize = match self.stored(table) {
            Some(i) => i,
            None => {
                assert(out@ =~= Seq::empty());
                return Ok(out);
            },
        };
        let rows = &self.tables[i].rows;
        let n: usize = rows.len();
        let ghost rv = pairs_v(rows@);
        let ghost cv = idx@.columns;
        let ghost vv = row_view(values@);
        let ghost want = ids_equal(rv, cv, vv, 0);
        assert(out@ + want =~= want);
        for k in 0..n
            invariant
                n == rows@.len(),
                rv == pairs_v(rows@),
                cv == idx@.columns,
                vv == row_view(values@),
                want == out@ + ids_equal(rv, cv, vv, k as int),
        {
            assert(rv[k as int] == (rows@[k as int].0, row_view(rows@[k as int].1@)));
            if keys_match(&rows[k].1, &idx.columns, values) {
                let ghost o0 = out@;
                out.push(rows[k].0);
                assert(o0 + (seq![rv[k as int].0] + ids_equal(rv, cv, vv, k + 1)) =~= out@ + ids_equal(rv, cv, vv, k + 1));
            }
        }
        assert(out@ + Seq::<i64>::empty() =~= out@);
        Ok(out)
    }

    fn index_range(&self, table: &TableDef, idx: &IndexDef, lo: Option<(&Value, bool)>, hi: Option<(&Value, bool)>) -> (r: Result<Vec<i64>, Error>) {
        let mut out: Vec<i64> = Vec::new();
        let i: usize = match self.stored(table) {
            Some(i) => i,
            None => {
                assert(out@ =~= Seq::empty());
                return Ok(out);
            },
        };
        let rows = &self.tables[i].rows;
        let n: usize = rows.len();
        let ghost rv = pairs_v(rows@);
        let ghost cv = idx@.columns;
        let ghost l = bound_v(lo);
        let ghost h = bound_v(hi);
        let ghost want = ids_within(rv, cv, l, h, 0);
        assert(out@ + want =~= want);
        for k in 0..n
            invariant
                n == rows@.len(),
                rv == pairs_v(rows@),
                cv == idx@.columns,
                l == bound_v(lo),
                h == bound_v(hi),
                want == out@ + ids_within(rv, cv, l, h, k as int),
        {
            assert(rv[k as int] == (rows@[k as int].0, row_view(rows@[k as int].1@)));
            if is_within(&rows[k].1, &idx.columns, lo, hi) {
                let ghost o0 = out@;
                out.push(rows[k].0);
                assert(o0 + (seq![rv[k as int].0] + ids_within(rv, cv, l, h, k + 1)) =~= out@ + ids_within(rv, cv, l, h, k + 1));
            }
        }
        assert(out@ + Seq::<i64>::empty() =~= out@);
        Ok(out)
    }

    fn view(&self, name: &str) -> (r: Result<Option<String>, Error>) {
        let n: usize = self.views.len();
        let ghost vs = self.views();
        for i in 0..n
            invariant
                n == self.views@.len(),
                vs == self.views(),
                view_at(vs, name@, 0) == view_at(vs, name@, i as int),
        {
            assert(vs[i as int] == (self.views@[i as int].0@, self.views@[i as int].1@));
            if str_eq(self.views[i].0.as_str(), name) {
                return Ok(Some(self.views[i].1.clone()));
            }
        }
        Ok(None)
    }

    fn fts_search(&self, table: &TableDef, fts: &FtsIndexDef, query: &Query) -> (r: Result<Vec<i64>, Error>) {
        Err(missing_index())
    }

    fn fts_stats(&self, fts_id: u32, query: &Query) -> (r: Result<RankStats, Error>) {
        Err(missing_index())
    }

    fn vector_search(&self, vidx: &VectorIndexDef, query: &Vec<u8>, nprobe: usize, limit: usize) -> (r: Result<Vec<i64>, Error>) {
        Err(missing_index())
    }

    fn knn_exact(&self, table: &TableDef, col: usize, query: &Vec<u8>, metric: VectorMetric, k: usize) -> (r: Result<Vec<i64>, Error>) {
        Err(missing_index())
    }

}

} // verus!
