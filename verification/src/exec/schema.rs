//! The tables that a statement sees and the columns of the combined row.
use vstd::prelude::*;

use crate::fts::ranking::{RankStats, RankStatsV};
use crate::catalog::{ColumnDef, ColumnDefV, FtsIndexDef, FtsIndexDefV, TableDef, TableDefV};
#[allow(unused_imports)]
use crate::catalog::{column_defs_v, fts_index_defs_v, usizes_v};
use crate::error::{sql_err, sql_lit, Error, ErrorV};
#[allow(unused_imports)]
use crate::error::sql_error;
use crate::record::{Value, ValueV};
#[allow(unused_imports)]
use crate::record::row_view;
use crate::text::{cat, cat4, str_eq};

verus! {

/// A table of a statement: its qualifier and the position of its first column in
/// the combined row.
#[derive(Debug)]
pub struct SchemaTable {
    pub qualifier: String,
    pub def: TableDef,
    pub offset: usize,
}

/// A full-text query of an index, with what its rows are ranked by.
#[derive(Debug)]
pub struct Rank {
    pub fts_id: u32,
    pub query: String,
    pub stats: RankStats,
}

#[verifier::ext_equal]
pub ghost struct RankV {
    pub fts_id: u32,
    pub query: Seq<char>,
    pub stats: RankStatsV,
}

impl View for Rank {
    type V = RankV;

    open spec fn view(&self) -> RankV {
        RankV { fts_id: self.fts_id, query: self.query@, stats: self.stats@ }
    }
}

/// The tables of a statement in order of appearance. The combined row is the rows
/// of the tables in a row.
#[derive(Debug)]
pub struct QuerySchema {
    pub tables: Vec<SchemaTable>,
    /// The full-text queries for which rows can be ranked.
    pub ranks: Vec<Rank>,
}

#[verifier::ext_equal]
pub ghost struct SchemaTableV {
    pub qualifier: Seq<char>,
    pub def: TableDefV,
    pub offset: nat,
}

#[verifier::ext_equal]
pub ghost struct SchemaV {
    pub tables: Seq<SchemaTableV>,
    pub ranks: Seq<RankV>,
}

impl View for SchemaTable {
    type V = SchemaTableV;

    open spec fn view(&self) -> SchemaTableV {
        SchemaTableV { qualifier: self.qualifier@, def: self.def@, offset: self.offset as nat }
    }
}

impl View for QuerySchema {
    type V = SchemaV;

    open spec fn view(&self) -> SchemaV {
        SchemaV {
            tables: Seq::new(self.tables@.len(), |i: int| self.tables@[i]@),
            ranks: Seq::new(self.ranks@.len(), |i: int| self.ranks@[i]@),
        }
    }
}

/// The number of columns of the combined row.
pub open spec fn row_width(tables: Seq<SchemaTableV>) -> nat {
    if tables.len() == 0 {
        0
    } else {
        tables.last().offset + tables.last().def.columns.len()
    }
}

/// Every table begins where the one before it ends.
pub open spec fn laid_out(tables: Seq<SchemaTableV>) -> bool
    decreases tables.len(),
{
    tables.len() > 0 ==> laid_out(tables.drop_last()) && tables.last().offset == row_width(
        tables.drop_last(),
    )
}

pub proof fn lemma_laid_out(tables: Seq<SchemaTableV>, i: int)
    requires
        laid_out(tables),
        0 <= i < tables.len(),
    ensures
        tables[i].offset + tables[i].def.columns.len() <= row_width(tables),
    decreases tables.len(),
{
    if i + 1 < tables.len() {
        lemma_laid_out(tables.drop_last(), i);
        assert(tables.drop_last()[i] == tables[i]);
    }
}

/// What a table definition says of columns it says of columns that it has.
pub open spec fn def_ok(d: TableDefV) -> bool {
    &&& forall|i: int|
        0 <= i < d.logical_order.len() ==> (#[trigger] d.logical_order[i]) < d.columns.len()
    &&& forall|i: int, k: int|
        0 <= i < d.indexes.len() && 0 <= k < d.indexes[i].columns.len() ==> (
        #[trigger] d.indexes[i].columns[k]) < d.columns.len()
    &&& d.rowid_alias is Some ==> d.rowid_alias->0 < d.columns.len()
}

// --- lookup ---

/// The first table with a qualifier.
pub open spec fn table_named(tables: Seq<SchemaTableV>, q: Seq<char>, i: int) -> Option<int>
    decreases tables.len() - i,
{
    if i < 0 || i >= tables.len() {
        None
    } else if tables[i].qualifier == q {
        Some(i)
    } else {
        table_named(tables, q, i + 1)
    }
}

/// The first column with a name that is not dropped.
pub open spec fn column_named(columns: Seq<ColumnDefV>, name: Seq<char>, i: int) -> Option<int>
    decreases columns.len() - i,
{
    if i < 0 || i >= columns.len() {
        None
    } else if !columns[i].dropped && columns[i].name == name {
        Some(i)
    } else {
        column_named(columns, name, i + 1)
    }
}

/// The only column with a name among the tables from `i` on; `found` is one of an
/// earlier table.
pub open spec fn only_column(
    tables: Seq<SchemaTableV>,
    name: Seq<char>,
    i: int,
    found: Option<(int, int)>,
) -> Result<(int, int), ErrorV>
    decreases tables.len() - i,
{
    if i < 0 || i >= tables.len() {
        match found {
            Some(f) => Ok(f),
            None => Err(sql_error("columna desconocida: "@ + name)),
        }
    } else {
        match column_named(tables[i].def.columns, name, 0) {
            Some(c) => if found is Some {
                Err(sql_error("columna ambigua: "@ + name))
            } else {
                only_column(tables, name, i + 1, Some((i, c)))
            },
            None => only_column(tables, name, i + 1, found),
        }
    }
}

/// The table and the column in it that `[table.]name` means.
pub open spec fn located(s: SchemaV, table: Option<Seq<char>>, name: Seq<char>) -> Result<
    (int, int),
    ErrorV,
> {
    match table {
        Some(q) => match table_named(s.tables, q, 0) {
            None => Err(sql_error("tabla desconocida en la consulta: "@ + q)),
            Some(t) => match column_named(s.tables[t].def.columns, name, 0) {
                None => Err(sql_error("columna desconocida: "@ + q + "."@ + name)),
                Some(c) => Ok((t, c)),
            },
        },
        None => only_column(s.tables, name, 0, None),
    }
}

/// The position in the combined row that `[table.]name` means.
pub open spec fn resolved(s: SchemaV, table: Option<Seq<char>>, name: Seq<char>) -> Result<int, ErrorV> {
    match located(s, table, name) {
        Ok((t, c)) => Ok(s.tables[t].offset + c),
        Err(e) => Err(e),
    }
}

proof fn lemma_column_named(columns: Seq<ColumnDefV>, name: Seq<char>, i: int)
    ensures
        (match column_named(columns, name, i) {
            Some(c) => 0 <= c < columns.len(),
            None => true,
        }),
    decreases columns.len() - i,
{
    if 0 <= i < columns.len() {
        lemma_column_named(columns, name, i + 1);
    }
}

proof fn lemma_table_named(tables: Seq<SchemaTableV>, q: Seq<char>, i: int)
    ensures
        (match table_named(tables, q, i) {
            Some(t) => 0 <= t < tables.len(),
            None => true,
        }),
    decreases tables.len() - i,
{
    if 0 <= i < tables.len() {
        lemma_table_named(tables, q, i + 1);
    }
}

proof fn lemma_only_column(
    tables: Seq<SchemaTableV>,
    name: Seq<char>,
    i: int,
    found: Option<(int, int)>,
)
    requires
        (match found {
            Some((t, c)) => 0 <= t < tables.len() && 0 <= c < tables[t].def.columns.len(),
            None => true,
        }),
    ensures
        (match only_column(tables, name, i, found) {
            Ok((t, c)) => 0 <= t < tables.len() && 0 <= c < tables[t].def.columns.len(),
            Err(_) => true,
        }),
    decreases tables.len() - i,
{
    if 0 <= i < tables.len() {
        lemma_column_named(tables[i].def.columns, name, 0);
        match column_named(tables[i].def.columns, name, 0) {
            Some(c) => {
                if found is None {
                    lemma_only_column(tables, name, i + 1, Some((i, c)));
                }
            },
            None => lemma_only_column(tables, name, i + 1, found),
        }
    }
}

/// What a column reference means is a column of a table of the statement.
pub proof fn lemma_located(s: SchemaV, table: Option<Seq<char>>, name: Seq<char>)
    ensures
        (match located(s, table, name) {
            Ok((t, c)) => 0 <= t < s.tables.len() && 0 <= c < s.tables[t].def.columns.len(),
            Err(_) => true,
        }),
{
    match table {
        Some(q) => {
            lemma_table_named(s.tables, q, 0);
            if let Some(t) = table_named(s.tables, q, 0) {
                lemma_column_named(s.tables[t].def.columns, name, 0);
            }
        },
        None => lemma_only_column(s.tables, name, 0, None),
    }
}

/// The name of a column that may lack a qualifier.
pub open spec fn opt_text(o: Option<String>) -> Option<Seq<char>> {
    match o {
        Some(s) => Some(s@),
        None => None,
    }
}

pub fn find_column(columns: &Vec<ColumnDef>, name: &str) -> (r: Option<usize>)
    ensures
        (match column_named(column_defs_v(columns@), name@, 0) {
            Some(c) => r is Some && r->0 == c && c < columns@.len(),
            None => r is None,
        }),
{
    let n: usize = columns.len();
    let ghost cs = column_defs_v(columns@);
    for i in 0..n
        invariant
            n == columns@.len(),
            cs == column_defs_v(columns@),
            column_named(cs, name@, 0) == column_named(cs, name@, i as int),
    {
        assert(cs[i as int] == columns@[i as int]@);
        if !columns[i].dropped && str_eq(columns[i].name.as_str(), name) {
            return Some(i);
        }
    }
    None
}

/// The error of a combined row that has more columns than can be counted.
pub open spec fn too_wide() -> ErrorV {
    sql_error("la fila combinada tiene demasiadas columnas"@)
}

/// The schema with one table more.
pub open spec fn pushed(s: SchemaV, qualifier: Seq<char>, def: TableDefV) -> Result<SchemaV, ErrorV> {
    if table_named(s.tables, qualifier, 0) is Some {
        Err(sql_error("alias de tabla duplicado: "@ + qualifier))
    } else if row_width(s.tables) + def.columns.len() > usize::MAX {
        Err(too_wide())
    } else {
        Ok(
            SchemaV {
                tables: s.tables.push(SchemaTableV { qualifier, def, offset: row_width(s.tables) }),
                ranks: s.ranks,
            },
        )
    }
}

impl QuerySchema {
    /// The tables are laid out one after the other, in a row that can be indexed, and
    /// their definitions refer to their own columns.
    pub open spec fn wf(&self) -> bool {
        &&& laid_out(self@.tables)
        &&& row_width(self@.tables) <= usize::MAX
        &&& forall|i: int| 0 <= i < self.tables@.len() ==> def_ok((#[trigger] self.tables@[i]).def@)
    }

    pub fn new() -> (r: QuerySchema)
        ensures
            r.wf(),
            r@.tables.len() == 0,
            r@.ranks.len() == 0,
    {
        QuerySchema { tables: Vec::new(), ranks: Vec::new() }
    }

    pub fn single(qualifier: &str, def: TableDef) -> (r: QuerySchema)
        requires
            def_ok(def@),
        ensures
            r.wf(),
            r@.tables == seq![SchemaTableV { qualifier: qualifier@, def: def@, offset: 0 }],
            r@.ranks.len() == 0,
    {
        let mut tables: Vec<SchemaTable> = Vec::new();
        let n: usize = def.columns.len();
        tables.push(SchemaTable { qualifier: qualifier.to_owned(), def, offset: 0 });
        let r = QuerySchema { tables, ranks: Vec::new() };
        assert(r@.tables.drop_last() =~= Seq::empty());
        assert(row_width(r@.tables) == n);
        proof {
            reveal_with_fuel(laid_out, 2);
        }
        assert(r@.tables =~= seq![SchemaTableV { qualifier: qualifier@, def: def@, offset: 0 }]);
        r
    }

    pub fn width(&self) -> (r: usize)
        requires
            self.wf(),
        ensures
            r == row_width(self@.tables),
    {
        let n: usize = self.tables.len();
        if n == 0 {
            0
        } else {
            assert(self@.tables.last() == self.tables@[n - 1]@);
            self.tables[n - 1].offset + self.tables[n - 1].def.columns.len()
        }
    }

    fn find_table(&self, q: &str) -> (r: Option<usize>)
        ensures
            (match table_named(self@.tables, q@, 0) {
                Some(t) => r is Some && r->0 == t && t < self.tables@.len(),
                None => r is None,
            }),
    {
        let n: usize = self.tables.len();
        for i in 0..n
            invariant
                n == self.tables@.len(),
                table_named(self@.tables, q@, 0) == table_named(self@.tables, q@, i as int),
        {
            assert(self@.tables[i as int] == self.tables@[i as int]@);
            if str_eq(self.tables[i].qualifier.as_str(), q) {
                return Some(i);
            }
        }
        None
    }

    /// Adds a table at the end of the combined row.
    pub fn push(&mut self, qualifier: &str, def: TableDef) -> (r: Result<(), Error>)
        requires
            old(self).wf(),
            def_ok(def@),
        ensures
            final(self).wf(),
            (match pushed(old(self)@, qualifier@, def@) {
                Ok(s) => r is Ok && final(self)@ == s,
                Err(e) => r is Err && r->Err_0@ == e && final(self)@ == old(self)@,
            }),
    {
        if self.find_table(qualifier).is_some() {
            return Err(sql_err(cat("alias de tabla duplicado: ", qualifier)));
        }
        let offset: usize = self.width();
        if def.columns.len() > usize::MAX - offset {
            return Err(sql_lit("la fila combinada tiene demasiadas columnas"));
        }
        self.tables.push(SchemaTable { qualifier: qualifier.to_owned(), def, offset });
        proof {
            let before = old(self)@.tables;
            let after = self@.tables;
            assert(after =~= before.push(
                SchemaTableV { qualifier: qualifier@, def: def@, offset: offset as nat },
            ));
            assert(after.drop_last() =~= before);
            assert(self@ =~= pushed(old(self)@, qualifier@, def@)->Ok_0);
        }
        Ok(())
    }

    /// The table and the column in it that `[table.]name` means.
    pub fn locate(&self, table: &Option<String>, name: &str) -> (r: Result<(usize, usize), Error>)
        ensures
            (match located(self@, opt_text(*table), name@) {
                Ok((t, c)) => r is Ok && (r->Ok_0).0 == t && (r->Ok_0).1 == c && 0 <= t
                    < self.tables@.len() && 0 <= c < self.tables@[t].def.columns@.len(),
                Err(e) => r is Err && r->Err_0@ == e,
            }),
    {
        proof {
            lemma_located(self@, opt_text(*table), name@);
        }
        match table {
            Some(q) => match self.find_table(q.as_str()) {
                None => Err(sql_err(cat("tabla desconocida en la consulta: ", q.as_str()))),
                Some(t) => {
                    assert(self@.tables[t as int] == self.tables@[t as int]@);
                    match find_column(&self.tables[t].def.columns, name) {
                        None => Err(
                            sql_err(cat4("columna desconocida: ", q.as_str(), ".", name)),
                        ),
                        Some(c) => Ok((t, c)),
                    }
                },
            },
            None => {
                let n: usize = self.tables.len();
                let mut found: Option<(usize, usize)> = None;
                let ghost whole = only_column(self@.tables, name@, 0, None);
                for i in 0..n
                    invariant
                        n == self.tables@.len(),
                        (match found {
                            Some((t, c)) => t < n && c < self.tables@[t as int].def.columns@.len(),
                            None => true,
                        }),
                        whole == only_column(
                            self@.tables,
                            name@,
                            i as int,
                            match found {
                                Some((t, c)) => Some((t as int, c as int)),
                                None => None,
                            },
                        ),
                        whole == only_column(self@.tables, name@, 0, None),
                        located(self@, opt_text(*table), name@) == whole,
                {
                    assert(self@.tables[i as int] == self.tables@[i as int]@);
                    if let Some(c) = find_column(&self.tables[i].def.columns, name) {
                        if found.is_some() {
                            return Err(sql_err(cat("columna ambigua: ", name)));
                        }
                        found = Some((i, c));
                    }
                }
                match found {
                    Some(f) => Ok(f),
                    None => Err(sql_err(cat("columna desconocida: ", name))),
                }
            },
        }
    }

    /// The position in the combined row that `[table.]name` means.
    pub fn resolve(&self, table: &Option<String>, name: &str) -> (r: Result<usize, Error>)
        requires
            self.wf(),
        ensures
            (match resolved(self@, opt_text(*table), name@) {
                Ok(i) => r is Ok && r->Ok_0 == i && 0 <= i < row_width(self@.tables),
                Err(e) => r is Err && r->Err_0@ == e,
            }),
    {
        match self.locate(table, name) {
            Ok((t, c)) => {
                assert(self.tables@[t as int].offset + c < row_width(self@.tables)) by {
                    assert(self@.tables[t as int] == self.tables@[t as int]@);
                    lemma_laid_out(self@.tables, t as int);
                }
                Ok(self.tables[t].offset + c)
            },
            Err(e) => Err(e),
        }
    }

    /// Makes a full-text query one for which rows can be ranked.
    pub fn add_rank(&mut self, fts_id: u32, query: String, stats: RankStats)
        requires
            old(self).wf(),
        ensures
            final(self).wf(),
            final(self)@.tables == old(self)@.tables,
            final(self)@.ranks == old(self)@.ranks.push(RankV { fts_id, query: query@, stats: stats@ }),
    {
        self.ranks.push(Rank { fts_id, query, stats });
        assert(self@.ranks =~= old(self)@.ranks.push(RankV { fts_id, query: query@, stats: stats@ }));
        assert(self@.tables =~= old(self)@.tables);
    }

    /// The statistics of a full-text query for which rows can be ranked.
    pub fn rank_of(&self, fts_id: u32, query: &str) -> (r: Option<&RankStats>)
        ensures
            (match rank_named(self@.ranks, fts_id, query@, 0) {
                Some(i) => r is Some && r->0@ == self@.ranks[i].stats && 0 <= i < self@.ranks.len(),
                None => r is None,
            }),
    {
        let n: usize = self.ranks.len();
        for i in 0..n
            invariant
                n == self.ranks@.len(),
                rank_named(self@.ranks, fts_id, query@, 0) == rank_named(self@.ranks, fts_id, query@, i as int),
        {
            assert(self@.ranks[i as int] == self.ranks@[i as int]@);
            if self.ranks[i].fts_id == fts_id && str_eq(self.ranks[i].query.as_str(), query) {
                return Some(&self.ranks[i].stats);
            }
        }
        None
    }
}

/// The first query from `i` on of that index and text.
pub open spec fn rank_named(s: Seq<RankV>, fts_id: u32, query: Seq<char>, i: int) -> Option<int>
    decreases s.len() - i,
{
    if i < 0 || i >= s.len() {
        None
    } else if s[i].fts_id == fts_id && s[i].query == query {
        Some(i)
    } else {
        rank_named(s, fts_id, query, i + 1)
    }
}

// --- full-text indexes ---

/// The first full-text index on a column.
pub open spec fn fts_on(indexes: Seq<FtsIndexDefV>, col: int, i: int) -> Option<int>
    decreases indexes.len() - i,
{
    if i < 0 || i >= indexes.len() {
        None
    } else if exists|k: int| 0 <= k < indexes[i].columns.len() && #[trigger] indexes[i].columns[k] == col {
        Some(i)
    } else {
        fts_on(indexes, col, i + 1)
    }
}

fn covers(columns: &Vec<usize>, col: usize) -> (r: bool)
    ensures
        r == exists|k: int| 0 <= k < columns@.len() && #[trigger] usizes_v(columns@)[k] == col,
{
    let n: usize = columns.len();
    for i in 0..n
        invariant
            n == columns@.len(),
            forall|k: int| 0 <= k < i ==> #[trigger] usizes_v(columns@)[k] != col,
    {
        assert(usizes_v(columns@)[i as int] == columns@[i as int]);
        if columns[i] == col {
            return true;
        }
    }
    false
}

pub fn find_fts(indexes: &Vec<FtsIndexDef>, col: usize) -> (r: Option<usize>)
    ensures
        (match fts_on(fts_index_defs_v(indexes@), col as int, 0) {
            Some(i) => r is Some && r->0 == i && 0 <= i < indexes@.len(),
            None => r is None,
        }),
{
    let n: usize = indexes.len();
    let ghost fs = fts_index_defs_v(indexes@);
    for i in 0..n
        invariant
            n == indexes@.len(),
            fs == fts_index_defs_v(indexes@),
            fts_on(fs, col as int, 0) == fts_on(fs, col as int, i as int),
    {
        assert(fs[i as int] == indexes@[i as int]@);
        assert(fs[i as int].columns == usizes_v(indexes@[i as int].columns@));
        if covers(&indexes[i].columns, col) {
            return Some(i);
        }
    }
    None
}

// --- rows ---

/// A combined row and the schema that describes it, where there is a row.
pub type RowV = Option<(SchemaV, Seq<ValueV>)>;

pub open spec fn row_v(row: Option<(&QuerySchema, &Vec<Value>)>) -> RowV {
    match row {
        Some((s, vs)) => Some((s@, row_view(vs@))),
        None => None,
    }
}

/// The row has a value for every column of the schema.
pub open spec fn row_fits(row: Option<(&QuerySchema, &Vec<Value>)>) -> bool {
    match row {
        Some((s, vs)) => s.wf() && vs@.len() == row_width(s@.tables),
        None => true,
    }
}

} // verus!
