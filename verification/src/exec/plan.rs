//! How the rows of a table are reached: by identifier, through an index, or all of
//! them. Whatever is chosen, the condition of the query is applied to the rows
//! afterwards.
use vstd::prelude::*;

use crate::catalog::{ColumnDef, ColumnDefV, IndexDef, IndexDefV, TableDef, TableDefV, VectorIndexDef, VectorIndexDefV, VectorMetric};
#[allow(unused_imports)]
use crate::catalog::{column_defs_v, usizes_v, vector_index_defs_v};
use crate::error::{Error, ErrorV};
use crate::exec::eval::eval_const;
#[allow(unused_imports)]
use crate::exec::eval::value_of;
use crate::exec::ops::{coerce_value, Env, EnvV};
#[allow(unused_imports)]
use crate::exec::ops::{branch, coerced};
use crate::exec::rows::usize_const;
#[allow(unused_imports)]
use crate::exec::rows::count_value;
use crate::exec::schema::{find_column, find_fts};
use crate::exec::select::{has_any_aggregate, has_any_window};
#[allow(unused_imports)]
use crate::exec::select::{any_aggregate, any_window};
#[allow(unused_imports)]
use crate::exec::schema::{column_named, def_ok, fts_on};
use crate::exec::source::DataSource;
#[allow(unused_imports)]
use crate::exec::rows::rows_wide;
use crate::fts::{parse_query, Query};
#[allow(unused_imports)]
use crate::fts::query::{parsed_query, QueryV};
use crate::record::{Value, ValueV};
#[allow(unused_imports)]
use crate::record::{row_view, rows_view};
use crate::sql::ast::{BinOp, Expr, ExprV, SelectStmt, SelectStmtV};
#[allow(unused_imports)]
use crate::sql::ast::{expr_v, exprs_v};
#[allow(unused_imports)]
use crate::sql::walk::{is_constant, refs_v};
use crate::text::str_eq;

verus! {

/// A way to reach rows of a table. Indexes are given by their place in the table.
#[derive(Debug)]
pub enum Access {
    /// The row with an identifier.
    One(i64),
    /// The rows whose columns of an index equal the values.
    Equal(usize, Vec<Value>),
    /// The rows from a value on, or up to it, in an index.
    From(usize, Value, bool),
    UpTo(usize, Value, bool),
    /// The rows that a full-text query matches.
    Matching(usize, Query),
    /// Candidates of a vector index.
    Near(usize, Vec<u8>, usize, usize),
    /// The rows nearest to a vector.
    Nearest(usize, Vec<u8>, VectorMetric, usize),
    /// All rows.
    Scan,
}

pub ghost enum AccessV {
    One(i64),
    Equal(int, Seq<ValueV>),
    From(int, ValueV, bool),
    UpTo(int, ValueV, bool),
    Matching(int, QueryV),
    Near(int, Seq<u8>, usize, usize),
    Nearest(int, Seq<u8>, VectorMetric, usize),
    Scan,
}

impl View for Access {
    type V = AccessV;

    open spec fn view(&self) -> AccessV {
        match self {
            Access::One(id) => AccessV::One(*id),
            Access::Equal(i, vs) => AccessV::Equal(*i as int, row_view(vs@)),
            Access::From(i, v, inclusive) => AccessV::From(*i as int, v@, *inclusive),
            Access::UpTo(i, v, inclusive) => AccessV::UpTo(*i as int, v@, *inclusive),
            Access::Matching(i, q) => AccessV::Matching(*i as int, q@),
            Access::Near(i, q, nprobe, limit) => AccessV::Near(*i as int, q@, *nprobe, *limit),
            Access::Nearest(c, q, metric, k) => AccessV::Nearest(*c as int, q@, *metric, *k),
            Access::Scan => AccessV::Scan,
        }
    }
}

/// The indexes that an access names are there.
pub open spec fn access_ok(a: AccessV, def: TableDefV) -> bool {
    match a {
        AccessV::Equal(i, _) => 0 <= i < def.indexes.len(),
        AccessV::From(i, _, _) => 0 <= i < def.indexes.len(),
        AccessV::UpTo(i, _, _) => 0 <= i < def.indexes.len(),
        AccessV::Matching(i, _) => 0 <= i < def.fts_indexes.len(),
        AccessV::Near(i, _, _, _) => 0 <= i < def.vector_indexes.len(),
        _ => true,
    }
}

// --- by identifier ---

/// `e` is the column with that name of the table with that qualifier.
pub open spec fn is_column(e: ExprV, qualifier: Seq<char>, column: Seq<char>) -> bool {
    match e {
        ExprV::Column { table, name } => name == column && (table is None || table == Some(qualifier)),
        _ => false,
    }
}

fn names_column(e: &Expr, qualifier: &str, column: &str) -> (r: bool)
    ensures
        r == is_column(e@, qualifier@, column@),
{
    match e {
        Expr::Column { table, name } => str_eq(name.as_str(), column) && (match table {
                None => true,
                Some(t) => str_eq(t.as_str(), qualifier),
        }),
        _ => false,
    }
}

/// The constant to which a condition equates the row identifier.
pub open spec fn point_key(qualifier: Seq<char>, def: TableDefV, cond: Option<ExprV>) -> Option<ExprV> {
    match (def.rowid_alias, cond) {
        (Some(alias), Some(ExprV::Binary(l, BinOp::Eq, r))) => {
            let name = def.columns[alias as int].name;
            if is_column(*l, qualifier, name) && is_constant(*r) {
                Some(*r)
            } else if is_column(*r, qualifier, name) && is_constant(*l) {
                Some(*l)
            } else {
                None
            }
        },
        _ => None,
    }
}

pub fn point_lookup_key<'e>(qualifier: &str, def: &TableDef, cond: Option<&'e Expr>) -> (r: Option<&'e Expr>)
    requires
        def_ok(def@),
    ensures
        (match point_key(qualifier@, def@, opt_ref(cond)) {
                Some(e) => r is Some && r->0@ == e,
                None => r is None,
        }),
{
    let alias: usize = match def.rowid_alias {
        Some(a) => a,
        None => {
            return None;
        },
    };
    assert(def@.columns[alias as int] == def.columns@[alias as int]@);
    let name = def.columns[alias].name.as_str();
    match cond {
        Some(Expr::Binary(l, BinOp::Eq, r)) => {
            if names_column(l, qualifier, name) && r.is_const() {
                Some(&**r)
            } else if names_column(r, qualifier, name) && l.is_const() {
                Some(&**l)
            } else {
                None
            }
        },
        _ => None,
    }
}

pub open spec fn opt_ref(e: Option<&Expr>) -> Option<ExprV> {
    match e {
        Some(x) => Some(x@),
        None => None,
    }
}

// --- through an index ---

/// The first column of a name from `i` on, dropped ones too.
pub open spec fn place_named(columns: Seq<ColumnDefV>, name: Seq<char>, i: int) -> Option<int>
    decreases columns.len() - i,
{
    if i < 0 || i >= columns.len() {
        None
    } else if columns[i].name == name {
        Some(i)
    } else {
        place_named(columns, name, i + 1)
    }
}

pub fn find_place(columns: &Vec<ColumnDef>, name: &str) -> (r: Option<usize>)
    ensures
        (match place_named(column_defs_v(columns@), name@, 0) {
                Some(i) => r is Some && r->0 == i && 0 <= i < columns@.len(),
                None => r is None,
        }),
{
    let n: usize = columns.len();
    let ghost cs = column_defs_v(columns@);
    for i in 0..n
        invariant
            n == columns@.len(),
            cs == column_defs_v(columns@),
            place_named(cs, name@, 0) == place_named(cs, name@, i as int),
    {
        assert(cs[i as int] == columns@[i as int]@);
        if str_eq(columns[i].name.as_str(), name) {
            return Some(i);
        }
    }
    None
}

/// The place of the column that `e` is, in the table with that qualifier.
pub open spec fn column_place(qualifier: Seq<char>, def: TableDefV, e: ExprV) -> Option<int> {
    match e {
        ExprV::Column { table, name } => if table is None || table == Some(qualifier) {
            place_named(def.columns, name, 0)
        } else {
            None
        },
        _ => None,
    }
}

fn place_of(qualifier: &str, def: &TableDef, e: &Expr) -> (r: Option<usize>)
    ensures
        (match column_place(qualifier@, def@, e@) {
                Some(i) => r is Some && r->0 == i,
                None => r is None,
        }),
{
    match e {
        Expr::Column { table, name } => {
            let mine: bool = match table {
                None => true,
                Some(t) => str_eq(t.as_str(), qualifier),
            };
            if mine {
                find_place(&def.columns, name.as_str())
            } else {
                None
            }
        },
        _ => None,
    }
}

/// The equalities of columns with constants that a conjunction holds.
pub open spec fn equalities(qualifier: Seq<char>, def: TableDefV, e: ExprV) -> Seq<(int, ExprV)>
    decreases e,
{
    match e {
        ExprV::Binary(l, BinOp::And, r) => equalities(qualifier, def, *l) + equalities(qualifier, def, *r),
        ExprV::Binary(l, BinOp::Eq, r) => match column_place(qualifier, def, *l) {
            Some(c) if is_constant(*r) => seq![(c, *r)],
            _ => match column_place(qualifier, def, *r) {
                Some(c) if is_constant(*l) => seq![(c, *l)],
                _ => Seq::empty(),
            },
        },
        _ => Seq::empty(),
    }
}

pub open spec fn equalities_v(s: Seq<(usize, &Expr)>) -> Seq<(int, ExprV)> {
    Seq::new(s.len(), |i: int| (s[i].0 as int, s[i].1@))
}

fn collect_equalities<'e>(qualifier: &str, def: &TableDef, e: &'e Expr, out: &mut Vec<(usize, &'e Expr)>)
    ensures
        equalities_v(final(out)@) == equalities_v(old(out)@) + equalities(qualifier@, def@, e@),
    decreases e,
{
    let ghost before = equalities_v(out@);
    match e {
        Expr::Binary(l, BinOp::And, r) => {
            collect_equalities(qualifier, def, l, out);
            collect_equalities(qualifier, def, r, out);
            assert(equalities_v(out@) =~= before + equalities(qualifier@, def@, e@));
            return;
        },
        Expr::Binary(l, BinOp::Eq, r) => {
            if let Some(c) = place_of(qualifier, def, l) {
                if r.is_const() {
                    let x: &'e Expr = &**r;
                    out.push((c, x));
                    assert(equalities_v(out@) =~= before + seq![(c as int, r@)]);
                    return;
                }
            }
            if let Some(c) = place_of(qualifier, def, r) {
                if l.is_const() {
                    let x: &'e Expr = &**l;
                    out.push((c, x));
                    assert(equalities_v(out@) =~= before + seq![(c as int, l@)]);
                    return;
                }
            }
        },
        _ => {},
    }
    assert(before + Seq::<(int, ExprV)>::empty() =~= before);
}

/// The constant of the first equality on a column.
pub open spec fn equal_to(eqs: Seq<(int, ExprV)>, col: int, i: int) -> Option<ExprV>
    decreases eqs.len() - i,
{
    if i < 0 || i >= eqs.len() {
        None
    } else if eqs[i].0 == col {
        Some(eqs[i].1)
    } else {
        equal_to(eqs, col, i + 1)
    }
}

/// The constants for the columns from `k` on, where each has an equality.
pub open spec fn covering(cols: Seq<usize>, eqs: Seq<(int, ExprV)>, k: int) -> Option<Seq<ExprV>>
    decreases cols.len() - k,
{
    if k < 0 || k >= cols.len() {
        Some(Seq::empty())
    } else {
        match (equal_to(eqs, cols[k] as int, 0), covering(cols, eqs, k + 1)) {
            (Some(e), Some(rest)) => Some(seq![e] + rest),
            _ => None,
        }
    }
}

/// The index with most columns, all of them covered; the first of several.
pub open spec fn best_index(indexes: Seq<IndexDefV>, eqs: Seq<(int, ExprV)>, i: int, best: Option<(int, Seq<ExprV>)>) -> Option<(int, Seq<ExprV>)>
    decreases indexes.len() - i,
{
    if i < 0 || i >= indexes.len() {
        best
    } else {
        let next = match covering(indexes[i].columns, eqs, 0) {
            Some(es) if best is None || indexes[i].columns.len() > indexes[(best->0).0].columns.len() => Some((i, es)),
            _ => best,
        };
        best_index(indexes, eqs, i + 1, next)
    }
}

/// The index that the equalities of a condition cover, with its constants.
pub open spec fn equal_plan(qualifier: Seq<char>, def: TableDefV, cond: Option<ExprV>) -> Option<(int, Seq<ExprV>)> {
    match cond {
        None => None,
        Some(e) => {
            let eqs = equalities(qualifier, def, e);
            if eqs.len() == 0 {
                None
            } else {
                best_index(def.indexes, eqs, 0, None)
            }
        },
    }
}

fn equal_const<'e>(eqs: &Vec<(usize, &'e Expr)>, col: usize) -> (r: Option<&'e Expr>)
    ensures
        (match equal_to(equalities_v(eqs@), col as int, 0) {
                Some(e) => r is Some && r->0@ == e,
                None => r is None,
        }),
{
    let n: usize = eqs.len();
    let ghost s = equalities_v(eqs@);
    for i in 0..n
        invariant
            n == eqs@.len(),
            s == equalities_v(eqs@),
            equal_to(s, col as int, 0) == equal_to(s, col as int, i as int),
    {
        assert(s[i as int] == (eqs@[i as int].0 as int, eqs@[i as int].1@));
        if eqs[i].0 == col {
            return Some(eqs[i].1);
        }
    }
    None
}

fn cover<'e>(cols: &Vec<usize>, eqs: &Vec<(usize, &'e Expr)>) -> (r: Option<Vec<&'e Expr>>)
    ensures
        (match covering(usizes_v(cols@), equalities_v(eqs@), 0) {
                Some(es) => r is Some && refs_v(r->0@) == es,
                None => r is None,
        }),
{
    let n: usize = cols.len();
    let ghost cs = usizes_v(cols@);
    let ghost s = equalities_v(eqs@);
    let ghost all = covering(cs, s, 0);
    let mut out: Vec<&'e Expr> = Vec::new();
    assert(refs_v(out@) =~= Seq::empty());
    assert(all is Some ==> Seq::empty() + all->0 =~= all->0);
    for k in 0..n
        invariant
            n == cols@.len(),
            cs == usizes_v(cols@),
            s == equalities_v(eqs@),
            all == covering(cs, s, 0),
            (match covering(cs, s, k as int) {
                    Some(rest) => all == Some(refs_v(out@) + rest),
                    None => all is None,
            }),
    {
        assert(cs[k as int] == cols@[k as int]);
        let ghost before = refs_v(out@);
        match equal_const(eqs, cols[k]) {
            None => {
                return None;
            },
            Some(e) => {
                out.push(e);
                assert(refs_v(out@) =~= before.push(e@));
                proof {
                    match covering(cs, s, k + 1) {
                        Some(rest) => {
                            assert(before + (seq![e@] + rest) =~= refs_v(out@) + rest);
                        },
                        None => {},
                    }
                }
            },
        }
    }
    assert(refs_v(out@) + Seq::<ExprV>::empty() =~= refs_v(out@));
    Some(out)
}

proof fn lemma_best_index(indexes: Seq<IndexDefV>, eqs: Seq<(int, ExprV)>, i: int, best: Option<(int, Seq<ExprV>)>)
    requires
        best is Some ==> 0 <= (best->0).0 < indexes.len() && (best->0).1.len() == indexes[(best->0).0].columns.len(),
    ensures
        (match best_index(indexes, eqs, i, best) {
                Some((k, es)) => 0 <= k < indexes.len() && es.len() == indexes[k].columns.len(),
                None => true,
        }),
    decreases indexes.len() - i,
{
    if 0 <= i < indexes.len() {
        lemma_covering(indexes[i].columns, eqs, 0);
        let next = match covering(indexes[i].columns, eqs, 0) {
            Some(es) if best is None || indexes[i].columns.len() > indexes[(best->0).0].columns.len() => Some((i, es)),
            _ => best,
        };
        lemma_best_index(indexes, eqs, i + 1, next);
    }
}

proof fn lemma_covering(cols: Seq<usize>, eqs: Seq<(int, ExprV)>, k: int)
    requires
        0 <= k <= cols.len(),
    ensures
        covering(cols, eqs, k) is Some ==> covering(cols, eqs, k)->0.len() == cols.len() - k,
    decreases cols.len() - k,
{
    if k < cols.len() {
        lemma_covering(cols, eqs, k + 1);
    }
}

pub fn index_eq_plan<'e>(qualifier: &str, def: &TableDef, cond: Option<&'e Expr>) -> (r: Option<(usize, Vec<&'e Expr>)>)
    ensures
        (match equal_plan(qualifier@, def@, opt_ref(cond)) {
                Some((i, es)) => r is Some && (r->0).0 == i && refs_v((r->0).1@) == es && 0 <= i < def@.indexes.len() && es.len() == def@.indexes[i].columns.len(),
                None => r is None,
        }),
{
    let e: &'e Expr = match cond {
        Some(e) => e,
        None => {
            return None;
        },
    };
    let mut eqs: Vec<(usize, &'e Expr)> = Vec::new();
    assert(equalities_v(eqs@) + equalities(qualifier@, def@, e@) =~= equalities(qualifier@, def@, e@));
    collect_equalities(qualifier, def, e, &mut eqs);
    let ghost s = equalities(qualifier@, def@, e@);
    assert(s.len() == eqs@.len());
    if eqs.len() == 0 {
        return None;
    }
    let n: usize = def.indexes.len();
    let ghost ix = def@.indexes;
    proof {
        lemma_best_index(ix, s, 0, None);
    }
    let mut best: Option<(usize, Vec<&'e Expr>)> = None;
    for i in 0..n
        invariant
            n == def.indexes@.len(),
            ix == def@.indexes,
            ix.len() == n,
            s == equalities_v(eqs@),
            best is Some ==> (best->0).0 < n,
            best_index(ix, s, 0, None) == best_index(ix, s, i as int, best_v(best)),
    {
        assert(ix[i as int] == def.indexes@[i as int]@);
        let wider: bool = match &best {
            None => true,
            Some((b, _)) => {
                assert(ix[*b as int] == def.indexes@[*b as int]@);
                def.indexes[i].columns.len() > def.indexes[*b].columns.len()
            },
        };
        if let Some(es) = cover(&def.indexes[i].columns, &eqs) {
            if wider {
                best = Some((i, es));
            }
        }
    }
    best
}

spec fn best_v(b: Option<(usize, Vec<&Expr>)>) -> Option<(int, Seq<ExprV>)> {
    match b {
        Some((i, es)) => Some((i as int, refs_v(es@))),
        None => None,
    }
}

/// A comparison with its sides changed.
pub open spec fn flipped(op: BinOp) -> BinOp {
    match op {
        BinOp::Lt => BinOp::Gt,
        BinOp::Le => BinOp::Ge,
        BinOp::Gt => BinOp::Lt,
        BinOp::Ge => BinOp::Le,
        other => other,
    }
}

pub fn flip_op(op: BinOp) -> (r: BinOp)
    ensures
        r == flipped(op),
{
    match op {
        BinOp::Lt => BinOp::Gt,
        BinOp::Le => BinOp::Ge,
        BinOp::Gt => BinOp::Lt,
        BinOp::Ge => BinOp::Le,
        other => other,
    }
}

pub open spec fn is_range(op: BinOp) -> bool {
    op == BinOp::Lt || op == BinOp::Le || op == BinOp::Gt || op == BinOp::Ge
}

/// The first index from `i` on over that column alone.
pub open spec fn index_on(indexes: Seq<IndexDefV>, col: int, i: int) -> Option<int>
    decreases indexes.len() - i,
{
    if i < 0 || i >= indexes.len() {
        None
    } else if indexes[i].columns.len() == 1 && indexes[i].columns[0] == col {
        Some(i)
    } else {
        index_on(indexes, col, i + 1)
    }
}

/// The column, the comparison and the constant of a range condition.
pub open spec fn range_of(qualifier: Seq<char>, def: TableDefV, cond: Option<ExprV>) -> Option<(int, BinOp, ExprV)> {
    match cond {
        Some(ExprV::Binary(l, op, r)) => if !is_range(op) {
            None
        } else {
            match column_place(qualifier, def, *l) {
                Some(c) if is_constant(*r) => Some((c, op, *r)),
                _ => match column_place(qualifier, def, *r) {
                    Some(c) if is_constant(*l) => Some((c, flipped(op), *l)),
                    _ => None,
                },
            }
        },
        _ => None,
    }
}

/// The index, the comparison and the constant of a range condition that an index covers.
pub open spec fn range_plan(qualifier: Seq<char>, def: TableDefV, cond: Option<ExprV>) -> Option<(int, BinOp, ExprV)> {
    match range_of(qualifier, def, cond) {
        None => None,
        Some((c, op, e)) => if def.rowid_alias is Some && def.rowid_alias->0 == c {
            None
        } else {
            match index_on(def.indexes, c, 0) {
                Some(i) => Some((i, op, e)),
                None => None,
            }
        },
    }
}

pub fn index_range_plan<'e>(qualifier: &str, def: &TableDef, cond: Option<&'e Expr>) -> (r: Option<(usize, BinOp, &'e Expr)>)
    ensures
        (match range_plan(qualifier@, def@, opt_ref(cond)) {
                Some((i, op, e)) => r is Some && (r->0).0 == i && (r->0).1 == op && (r->0).2@ == e && 0 <= i < def@.indexes.len() && def@.indexes[i].columns.len() == 1 && is_range(op),
                None => r is None,
        }),
{
    let (col, op, e): (usize, BinOp, &'e Expr) = match cond {
        Some(Expr::Binary(l, op, r)) => {
            if !(*op == BinOp::Lt || *op == BinOp::Le || *op == BinOp::Gt || *op == BinOp::Ge) {
                return None;
            }
            let left = place_of(qualifier, def, l);
            if left.is_some() && r.is_const() {
                (left.unwrap(), *op, &**r)
            } else {
                let right = place_of(qualifier, def, r);
                if right.is_some() && l.is_const() {
                    (right.unwrap(), flip_op(*op), &**l)
                } else {
                    return None;
                }
            }
        },
        _ => {
            return None;
        },
    };
    assert(range_of(qualifier@, def@, opt_ref(cond)) == Some((col as int, op, e@)));
    if let Some(a) = def.rowid_alias {
        if a == col {
            return None;
        }
    }
    let n: usize = def.indexes.len();
    let ghost ix = def@.indexes;
    for i in 0..n
        invariant
            n == def.indexes@.len(),
            ix == def@.indexes,
            index_on(ix, col as int, 0) == index_on(ix, col as int, i as int),
            range_of(qualifier@, def@, opt_ref(cond)) == Some((col as int, op, e@)),
            is_range(op),
            !(def@.rowid_alias is Some && def@.rowid_alias->0 == col),
    {
        assert(ix[i as int] == def.indexes@[i as int]@);
        if def.indexes[i].columns.len() == 1 && def.indexes[i].columns[0] == col {
            return Some((i, op, e));
        }
    }
    None
}

/// The values of an index's columns from `k` on, as they are stored; none where a
/// constant is NULL or not of the type of its column.
pub open spec fn key_values(env: EnvV, def: TableDefV, cols: Seq<usize>, es: Seq<ExprV>, params: Seq<ValueV>, k: int) -> Result<Option<Seq<ValueV>>, ErrorV>
    decreases cols.len() - k,
{
    if k < 0 || k >= cols.len() {
        Ok(Some(Seq::empty()))
    } else {
        match value_of(branch(env, k), es[k], None, params) {
            Err(e) => Err(e),
            Ok(v) => {
                if v is Null {
                    Ok(None)
                } else {
                    match coerced(env, v, def.columns[cols[k] as int].col_type) {
                        Err(e) => Err(e),
                        Ok(c) => {
                            match c {
                                None => Ok(None),
                                Some(x) => {
                                    match key_values(env, def, cols, es, params, k + 1) {
                                        Err(e) => Err(e),
                                        Ok(rest) => {
                                            match rest {
                                                None => Ok(None),
                                                Some(vs) => Ok(Some(seq![x] + vs)),
                                            }
                                        },
                                    }
                                },
                            }
                        },
                    }
                }
            },
        }
    }
}

pub fn index_values(env: &Env, def: &TableDef, idx: &IndexDef, es: &Vec<&Expr>, params: &Vec<Value>) -> (r: Result<Option<Vec<Value>>, Error>)
    requires
        es@.len() == idx.columns@.len(),
        forall|k: int| 0 <= k < idx.columns@.len() ==> (#[trigger] idx.columns@[k]) < def@.columns.len(),
    ensures
        (match key_values(env@, def@, usizes_v(idx.columns@), refs_v(es@), row_view(params@), 0) {
                Ok(Some(vs)) => r is Ok && r->Ok_0 is Some && row_view((r->Ok_0)->0@) == vs,
                Ok(None) => r is Ok && r->Ok_0 is None,
                Err(e) => r is Err && r->Err_0@ == e,
        }),
{
    let n: usize = idx.columns.len();
    let ghost cs = usizes_v(idx.columns@);
    let ghost ev = refs_v(es@);
    let ghost pv = row_view(params@);
    let ghost all = key_values(env@, def@, cs, ev, pv, 0);
    let mut out: Vec<Value> = Vec::new();
    assert(row_view(out@) =~= Seq::empty());
    assert(all matches Ok(Some(vs)) ==> Seq::empty() + vs =~= vs);
    for k in 0..n
        invariant
            n == idx.columns@.len(),
            es@.len() == n,
            forall|k: int| 0 <= k < idx.columns@.len() ==> (#[trigger] idx.columns@[k]) < def@.columns.len(),
            cs == usizes_v(idx.columns@),
            ev == refs_v(es@),
            pv == row_view(params@),
            all == key_values(env@, def@, cs, ev, pv, 0),
            (match key_values(env@, def@, cs, ev, pv, k as int) {
                    Ok(Some(rest)) => all == Ok::<_, ErrorV>(Some(row_view(out@) + rest)),
                    Ok(None) => all == Ok::<Option<Seq<ValueV>>, ErrorV>(None),
                    Err(e) => all == Err::<Option<Seq<ValueV>>, ErrorV>(e),
            }),
    {
        assert(cs[k as int] == idx.columns@[k as int]);
        assert(ev[k as int] == es@[k as int]@);
        let col: usize = idx.columns[k];
        assert(def@.columns[col as int] == def.columns@[col as int]@);
        let v = eval_const(&env.branch(k), es[k], params)?;
        if let Value::Null = v {
            return Ok(None);
        }
        let ghost before = row_view(out@);
        match coerce_value(env, v, def.columns[col].col_type)? {
            None => {
                return Ok(None);
            },
            Some(x) => {
                let ghost xv = x@;
                out.push(x);
                assert(row_view(out@) =~= before.push(xv));
                proof {
                    match key_values(env@, def@, cs, ev, pv, k + 1) {
                        Ok(Some(rest)) => {
                            assert(before + (seq![xv] + rest) =~= row_view(out@) + rest);
                        },
                        _ => {},
                    }
                }
            },
        }
    }
    assert(row_view(out@) + Seq::<ValueV>::empty() =~= row_view(out@));
    Ok(Some(out))
}

/// The part of an index that a range condition leaves.
pub open spec fn range_access(env: EnvV, def: TableDefV, i: int, op: BinOp, e: ExprV, params: Seq<ValueV>) -> Result<AccessV, ErrorV> {
    match value_of(env, e, None, params) {
        Err(e) => Err(e),
        Ok(v) => {
            if v is Null {
                Ok(AccessV::Scan)
            } else {
                match coerced(env, v, def.columns[def.indexes[i].columns[0] as int].col_type) {
                    Err(e) => Err(e),
                    Ok(c) => {
                        match c {
                            None => Ok(AccessV::Scan),
                            Some(x) => match op {
                                BinOp::Gt => Ok(AccessV::From(i, x, false)),
                                BinOp::Ge => Ok(AccessV::From(i, x, true)),
                                BinOp::Lt => Ok(AccessV::UpTo(i, x, false)),
                                BinOp::Le => Ok(AccessV::UpTo(i, x, true)),
                                _ => Ok(AccessV::Scan),
                            },
                        }
                    },
                }
            }
        },
    }
}

pub fn range_rows(env: &Env, def: &TableDef, i: usize, op: BinOp, e: &Expr, params: &Vec<Value>) -> (r: Result<Access, Error>)
    requires
        def_ok(def@),
        i < def@.indexes.len(),
        def@.indexes[i as int].columns.len() == 1,
    ensures
        decided(r, range_access(env@, def@, i as int, op, e@, row_view(params@))),
{
    assert(def@.indexes[i as int] == def.indexes@[i as int]@);
    assert(def@.indexes[i as int].columns[0] == def.indexes@[i as int].columns@[0]);
    let col: usize = def.indexes[i].columns[0];
    assert(def@.columns[col as int] == def.columns@[col as int]@);
    let v = eval_const(env, e, params)?;
    if let Value::Null = v {
        return Ok(Access::Scan);
    }
    match coerce_value(env, v, def.columns[col].col_type)? {
        None => Ok(Access::Scan),
        Some(x) => match op {
            BinOp::Gt => Ok(Access::From(i, x, false)),
            BinOp::Ge => Ok(Access::From(i, x, true)),
            BinOp::Lt => Ok(Access::UpTo(i, x, false)),
            BinOp::Le => Ok(Access::UpTo(i, x, true)),
            _ => Ok(Access::Scan),
        },
    }
}

/// `r` is the access `want`, or its error.
pub open spec fn decided(r: Result<Access, Error>, want: Result<AccessV, ErrorV>) -> bool {
    match want {
        Ok(a) => r is Ok && r->Ok_0@ == a,
        Err(e) => r is Err && r->Err_0@ == e,
    }
}

/// `r` is the access `want`, if there is one, or its error.
pub open spec fn perhaps(r: Result<Option<Access>, Error>, want: Result<Option<AccessV>, ErrorV>) -> bool {
    match want {
        Ok(Some(a)) => r is Ok && r->Ok_0 is Some && (r->Ok_0)->0@ == a,
        Ok(None) => r is Ok && r->Ok_0 is None,
        Err(e) => r is Err && r->Err_0@ == e,
    }
}

// --- full text ---

/// The first `MATCH` that a conjunction holds.
pub open spec fn match_in(e: ExprV) -> Option<ExprV>
    decreases e,
{
    match e {
        ExprV::Match { column: _, query: _, negated: _ } => Some(e),
        ExprV::Binary(a, BinOp::And, b) => match match_in(*a) {
            Some(m) => Some(m),
            None => match_in(*b),
        },
        _ => None,
    }
}

pub fn find_match_conjunct(e: &Expr) -> (r: Option<&Expr>)
    ensures
        (match match_in(e@) {
                Some(m) => r is Some && r->0@ == m && m is Match,
                None => r is None,
        }),
    decreases e,
{
    match e {
        Expr::Match { .. } => Some(e),
        Expr::Binary(a, BinOp::And, b) => match find_match_conjunct(a) {
            Some(m) => Some(m),
            None => find_match_conjunct(b),
        },
        _ => None,
    }
}

/// The rows that a `MATCH` of the condition leaves, where an index can tell.
pub open spec fn match_access(env: EnvV, def: TableDefV, cond: Option<ExprV>, params: Seq<ValueV>) -> Result<Option<AccessV>, ErrorV> {
    match cond {
        None => Ok(None),
        Some(e) => match match_in(e) {
            Some(ExprV::Match { column, query, negated }) => match *column {
                ExprV::Column { table: _, name } => match column_named(def.columns, name, 0) {
                    Some(c) if !negated => match fts_on(def.fts_indexes, c, 0) {
                        Some(i) => {
                            match value_of(env, *query, None, params) {
                                Err(e) => Err(e),
                                Ok(v) => {
                                    match v {
                                        ValueV::Text(t) => {
                                            match parsed_query(t) {
                                                Err(e) => Err(e),
                                                Ok(q) => {
                                                    Ok(Some(AccessV::Matching(i, q)))
                                                },
                                            }
                                        },
                                        _ => Ok(None),
                                    }
                                },
                            }
                        },
                        None => Ok(None),
                    },
                    _ => Ok(None),
                },
                _ => Ok(None),
            },
            _ => Ok(None),
        },
    }
}

pub fn fts_plan(env: &Env, def: &TableDef, cond: Option<&Expr>, params: &Vec<Value>) -> (r: Result<Option<Access>, Error>)
    ensures
        perhaps(r, match_access(env@, def@, opt_ref(cond), row_view(params@))),
        r matches Ok(Some(a)) ==> access_ok(a@, def@),
{
    let e = match cond {
        Some(e) => e,
        None => {
            return Ok(None);
        },
    };
    let m = match find_match_conjunct(e) {
        Some(m) => m,
        None => {
            return Ok(None);
        },
    };
    match m {
        Expr::Match { column, query, negated } => {
            let ghost cv = expr_v(**column);
            assert(m@ == (ExprV::Match { column: Box::new(cv), query: Box::new(expr_v(**query)), negated: *negated }));
            let name = match &**column {
                Expr::Column { table: _, name } => name,
                _ => {
                    return Ok(None);
                },
            };
            let c: usize = match find_column(&def.columns, name.as_str()) {
                Some(c) => c,
                None => {
                    return Ok(None);
                },
            };
            if *negated {
                return Ok(None);
            }
            let i: usize = match find_fts(&def.fts_indexes, c) {
                Some(i) => i,
                None => {
                    return Ok(None);
                },
            };
            match eval_const(env, query, params)? {
                Value::Text(t) => {
                    let q = parse_query(t.as_str())?;
                    Ok(Some(Access::Matching(i, q)))
                },
                _ => Ok(None),
            }
        },
        _ => Ok(None),
    }
}

// --- vectors ---

/// The metric of a distance function.
pub open spec fn metric_named(name: Seq<char>) -> Option<VectorMetric> {
    if name == "cosine_distance"@ {
        Some(VectorMetric::Cosine)
    } else if name == "l2_distance"@ {
        Some(VectorMetric::L2)
    } else {
        None
    }
}

/// The column, the metric and the vector by which a query orders, where it orders by a
/// distance alone, ascending, with a limit and no condition.
pub open spec fn distance_key(def: TableDefV, stmt: SelectStmtV) -> Option<(int, VectorMetric, ExprV)> {
    if stmt.where_clause is Some || stmt.limit is None || stmt.order_by.len() != 1 || stmt.order_by[0].desc {
        None
    } else {
        match stmt.order_by[0].expr {
            ExprV::Function { name, args } => match metric_named(name) {
                Some(m) => if args.len() != 2 {
                    None
                } else {
                    match args[0] {
                        ExprV::Column { table: _, name: col } => match column_named(def.columns, col, 0) {
                            Some(c) => Some((c, m, args[1])),
                            None => None,
                        },
                        _ => None,
                    }
                },
                None => None,
            },
            _ => None,
        }
    }
}

fn distance_key_of<'e>(def: &TableDef, stmt: &'e SelectStmt) -> (r: Option<(usize, VectorMetric, &'e Expr)>)
    ensures
        (match distance_key(def@, stmt@) {
                Some((c, m, e)) => r is Some && (r->0).0 == c && (r->0).1 == m && (r->0).2@ == e && c < def@.columns.len(),
                None => r is None,
        }),
{
    if stmt.where_clause.is_some() || stmt.limit.is_none() || stmt.order_by.len() != 1 {
        return None;
    }
    assert(stmt@.order_by[0] == stmt.order_by@[0]@);
    if stmt.order_by[0].desc {
        return None;
    }
    match &stmt.order_by[0].expr {
        Expr::Function { name, args } => {
            let m = if str_eq(name.as_str(), "cosine_distance") {
                VectorMetric::Cosine
            } else if str_eq(name.as_str(), "l2_distance") {
                VectorMetric::L2
            } else {
                return None;
            };
            assert(exprs_v(args@).len() == args@.len());
            if args.len() != 2 {
                return None;
            }
            assert(exprs_v(args@)[0] == args@[0]@ && exprs_v(args@)[1] == args@[1]@);
            match &args[0] {
                Expr::Column { table: _, name: col } => match find_column(&def.columns, col.as_str()) {
                    Some(c) => Some((c, m, &args[1])),
                    None => None,
                },
                _ => None,
            }
        },
        _ => None,
    }
}

/// The first vector index from `i` on over a column with a metric.
pub open spec fn vector_on(indexes: Seq<VectorIndexDefV>, col: int, metric: VectorMetric, i: int) -> Option<int>
    decreases indexes.len() - i,
{
    if i < 0 || i >= indexes.len() {
        None
    } else if indexes[i].column == col && indexes[i].metric == metric {
        Some(i)
    } else {
        vector_on(indexes, col, metric, i + 1)
    }
}

/// The number of candidates for `k` results.
pub open spec fn shortlist(k: usize) -> usize {
    if k < 2 {
        64
    } else if k * 32 > usize::MAX {
        usize::MAX
    } else {
        (k * 32) as usize
    }
}

/// Something in a query sees more of its rows than those that LIMIT leaves, or changes
/// their number: rows must not be left out early.
pub open spec fn counts_rows(stmt: SelectStmtV) -> bool {
    stmt.joins.len() > 0 || stmt.group_by.len() > 0 || stmt.having is Some || stmt.distinct || stmt.offset is Some || stmt.compound.len() > 0 || any_aggregate(stmt) || any_window(stmt)
}

fn sees_all_rows(stmt: &SelectStmt) -> (r: bool)
    ensures
        r == counts_rows(stmt@),
{
    stmt.joins.len() > 0 || stmt.group_by.len() > 0 || stmt.having.is_some() || stmt.distinct || stmt.offset.is_some() || stmt.compound.len() > 0 || has_any_aggregate(stmt) || has_any_window(stmt)
}

/// The candidates of a vector index for a query that orders by distance.
pub open spec fn vector_access(env: EnvV, def: TableDefV, stmt: SelectStmtV, params: Seq<ValueV>) -> Result<Option<AccessV>, ErrorV> {
    match distance_key(def, stmt) {
        None => Ok(None),
        Some((c, m, e)) => match vector_on(def.vector_indexes, c, m, 0) {
            None => Ok(None),
            Some(i) => {
                match value_of(branch(env, 0), e, None, params) {
                    Err(e) => Err(e),
                    Ok(v) => {
                        match v {
                            ValueV::Blob(b) => {
                                match count_value(branch(env, 1), stmt.limit->0, params, "LIMIT"@) {
                                    Err(e) => Err(e),
                                    Ok(k) => {
                                        let nprobe = if def.vector_indexes[i].nprobe == 0 { 1 } else { def.vector_indexes[i].nprobe as usize };
                                        Ok(Some(AccessV::Near(i, b, nprobe, shortlist(k))))
                                    },
                                }
                            },
                            _ => Ok(None),
                        }
                    },
                }
            },
        },
    }
}

fn find_vector(indexes: &Vec<VectorIndexDef>, col: usize, metric: VectorMetric) -> (r: Option<usize>)
    ensures
        (match vector_on(vector_index_defs_v(indexes@), col as int, metric, 0) {
                Some(i) => r is Some && r->0 == i && 0 <= i < indexes@.len(),
                None => r is None,
        }),
{
    let n: usize = indexes.len();
    let ghost s = vector_index_defs_v(indexes@);
    for i in 0..n
        invariant
            n == indexes@.len(),
            s == vector_index_defs_v(indexes@),
            vector_on(s, col as int, metric, 0) == vector_on(s, col as int, metric, i as int),
    {
        assert(s[i as int] == indexes@[i as int]@);
        if indexes[i].column == col && indexes[i].metric == metric {
            return Some(i);
        }
    }
    None
}

pub fn vector_plan(env: &Env, def: &TableDef, stmt: &SelectStmt, params: &Vec<Value>) -> (r: Result<Option<Access>, Error>)
    ensures
        perhaps(r, vector_access(env@, def@, stmt@, row_view(params@))),
        r matches Ok(Some(a)) ==> access_ok(a@, def@),
{
    let (c, m, e) = match distance_key_of(def, stmt) {
        Some(k) => k,
        None => {
            return Ok(None);
        },
    };
    let i: usize = match find_vector(&def.vector_indexes, c, m) {
        Some(i) => i,
        None => {
            return Ok(None);
        },
    };
    assert(def@.vector_indexes[i as int] == def.vector_indexes@[i as int]@);
    match eval_const(&env.branch(0), e, params)? {
        Value::Blob(b) => match &stmt.limit {
            Some(l) => {
                let k: usize = usize_const(&env.branch(1), l, params, "LIMIT")?;
                let limit: usize = if k < 2 {
                    64
                } else if k > usize::MAX / 32 {
                    usize::MAX
                } else {
                    k * 32
                };
                let p: u16 = def.vector_indexes[i].nprobe;
                let nprobe: usize = if p == 0 { 1 } else { p as usize };
                Ok(Some(Access::Near(i, b, nprobe, limit)))
            },
            None => Ok(None),
        },
        _ => Ok(None),
    }
}

/// The rows nearest to a vector, for a query that orders by distance and in which
/// nothing else changes the number of rows.
pub open spec fn nearest_access(env: EnvV, def: TableDefV, stmt: SelectStmtV, params: Seq<ValueV>) -> Result<Option<AccessV>, ErrorV> {
    if counts_rows(stmt) {
        Ok(None)
    } else {
        match distance_key(def, stmt) {
            None => Ok(None),
            Some((c, m, e)) => {
                match value_of(branch(env, 0), e, None, params) {
                    Err(e) => Err(e),
                    Ok(v) => {
                        match v {
                            ValueV::Blob(b) => {
                                match count_value(branch(env, 1), stmt.limit->0, params, "LIMIT"@) {
                                    Err(e) => Err(e),
                                    Ok(k) => {
                                        Ok(Some(AccessV::Nearest(c, b, m, k)))
                                    },
                                }
                            },
                            _ => Ok(None),
                        }
                    },
                }
            },
        }
    }
}

pub fn exact_knn_plan(env: &Env, def: &TableDef, stmt: &SelectStmt, params: &Vec<Value>) -> (r: Result<Option<Access>, Error>)
    ensures
        perhaps(r, nearest_access(env@, def@, stmt@, row_view(params@))),
        r matches Ok(Some(a)) ==> access_ok(a@, def@) && (a is Nearest ==> a->Nearest_0 < def@.columns.len()),
{
    if sees_all_rows(stmt) {
        return Ok(None);
    }
    let (c, m, e) = match distance_key_of(def, stmt) {
        Some(k) => k,
        None => {
            return Ok(None);
        },
    };
    match eval_const(&env.branch(0), e, params)? {
        Value::Blob(b) => match &stmt.limit {
            Some(l) => {
                let k: usize = usize_const(&env.branch(1), l, params, "LIMIT")?;
                Ok(Some(Access::Nearest(c, b, m, k)))
            },
            None => Ok(None),
        },
        _ => Ok(None),
    }
}

// --- the choice ---

/// How a query without joins reaches the rows of its table.
pub open spec fn access(env: EnvV, qualifier: Seq<char>, def: TableDefV, stmt: SelectStmtV, params: Seq<ValueV>) -> Result<AccessV, ErrorV> {
    match point_key(qualifier, def, stmt.where_clause) {
        Some(k) => {
            match value_of(branch(env, 22), k, None, params) {
                Err(e) => Err(e),
                Ok(v) => {
                    match v {
                        ValueV::Integer(id) => Ok(AccessV::One(id)),
                        _ => Ok(AccessV::Scan),
                    }
                },
            }
        },
        None => match equal_plan(qualifier, def, stmt.where_clause) {
            Some((i, es)) => {
                match key_values(branch(env, 23), def, def.indexes[i].columns, es, params, 0) {
                    Err(e) => Err(e),
                    Ok(vs) => {
                        match vs {
                            Some(vs) => Ok(AccessV::Equal(i, vs)),
                            None => Ok(AccessV::Scan),
                        }
                    },
                }
            },
            None => match range_plan(qualifier, def, stmt.where_clause) {
                Some((i, op, e)) => range_access(branch(env, 24), def, i, op, e, params),
                None => {
                    match match_access(branch(env, 25), def, stmt.where_clause, params) {
                        Err(e) => Err(e),
                        Ok(m) => {
                            match m {
                                Some(a) => Ok(a),
                                None => {
                                    match vector_access(branch(env, 26), def, stmt, params) {
                                        Err(e) => Err(e),
                                        Ok(n) => {
                                            match n {
                                                Some(a) => Ok(a),
                                                None => {
                                                    match nearest_access(branch(env, 27), def, stmt, params) {
                                                        Err(e) => Err(e),
                                                        Ok(x) => {
                                                            match x {
                                                                Some(a) => Ok(a),
                                                                None => Ok(AccessV::Scan),
                                                            }
                                                        },
                                                    }
                                                },
                                            }
                                        },
                                    }
                                },
                            }
                        },
                    }
                },
            },
        },
    }
}

#[verifier::spinoff_prover]
#[verifier::rlimit(40)]
pub fn choose_access(env: &Env, qualifier: &str, def: &TableDef, stmt: &SelectStmt, params: &Vec<Value>) -> (r: Result<Access, Error>)
    requires
        def_ok(def@),
    ensures
        decided(r, access(env@, qualifier@, def@, stmt@, row_view(params@))),
        r is Ok ==> access_ok(r->Ok_0@, def@),
{
    let cond: Option<&Expr> = stmt.where_clause.as_ref();
    assert(opt_ref(cond) == stmt@.where_clause);
    if let Some(k) = point_lookup_key(qualifier, def, cond) {
        return match eval_const(&env.branch(22), k, params)? {
            Value::Integer(id) => Ok(Access::One(id)),
            _ => Ok(Access::Scan),
        };
    }
    if let Some((i, es)) = index_eq_plan(qualifier, def, cond) {
        assert(def@.indexes[i as int] == def.indexes@[i as int]@);
        assert forall|k: int| 0 <= k < def.indexes@[i as int].columns@.len() implies (#[trigger] def.indexes@[i as int].columns@[k]) < def@.columns.len() by {
            assert(def@.indexes[i as int].columns[k] == def.indexes@[i as int].columns@[k]);
        }
        return match index_values(&env.branch(23), def, &def.indexes[i], &es, params)? {
            Some(vs) => Ok(Access::Equal(i, vs)),
            None => Ok(Access::Scan),
        };
    }
    if let Some((i, op, e)) = index_range_plan(qualifier, def, cond) {
        return range_rows(&env.branch(24), def, i, op, e, params);
    }
    if let Some(a) = fts_plan(&env.branch(25), def, cond, params)? {
        return Ok(a);
    }
    if let Some(a) = vector_plan(&env.branch(26), def, stmt, params)? {
        return Ok(a);
    }
    if let Some(a) = exact_knn_plan(&env.branch(27), def, stmt, params)? {
        return Ok(a);
    }
    Ok(Access::Scan)
}

// --- the rows ---

/// The rows with the identifiers from `i` on; identifiers without a row are passed over.
pub open spec fn rows_with<S: DataSource>(src: S, def: TableDefV, at: Seq<i64>, i: int) -> Result<Seq<Seq<ValueV>>, ErrorV>
    decreases at.len() - i,
{
    if i < 0 || i >= at.len() {
        Ok(Seq::empty())
    } else {
        match src.row_of(def, at[i]) {
            Err(e) => Err(e),
            Ok(row) => {
                match rows_with(src, def, at, i + 1) {
                    Err(e) => Err(e),
                    Ok(rest) => {
                        match row {
                            Some(r) => Ok(seq![r] + rest),
                            None => Ok(rest),
                        }
                    },
                }
            },
        }
    }
}

/// The rows that an access reaches.
pub open spec fn reached<S: DataSource>(src: S, def: TableDefV, a: AccessV) -> Result<Seq<Seq<ValueV>>, ErrorV> {
    match a {
        AccessV::One(id) => {
            match src.row_of(def, id) {
                Err(e) => Err(e),
                Ok(row) => {
                    match row {
                        Some(r) => Ok(seq![r]),
                        None => Ok(Seq::empty()),
                    }
                },
            }
        },
        AccessV::Equal(i, vs) => {
            match src.equal_ids(def, def.indexes[i], vs) {
                Err(e) => Err(e),
                Ok(at) => {
                    rows_with(src, def, at, 0)
                },
            }
        },
        AccessV::From(i, v, inclusive) => {
            match src.range_ids(def, def.indexes[i], Some((v, inclusive)), None) {
                Err(e) => Err(e),
                Ok(at) => {
                    rows_with(src, def, at, 0)
                },
            }
        },
        AccessV::UpTo(i, v, inclusive) => {
            match src.range_ids(def, def.indexes[i], None, Some((v, inclusive))) {
                Err(e) => Err(e),
                Ok(at) => {
                    rows_with(src, def, at, 0)
                },
            }
        },
        AccessV::Matching(i, q) => {
            match src.matching_ids(def, def.fts_indexes[i], q) {
                Err(e) => Err(e),
                Ok(at) => {
                    rows_with(src, def, at, 0)
                },
            }
        },
        AccessV::Near(i, q, nprobe, limit) => {
            match src.near_ids(def.vector_indexes[i], q, nprobe, limit) {
                Err(e) => Err(e),
                Ok(at) => {
                    rows_with(src, def, at, 0)
                },
            }
        },
        AccessV::Nearest(c, q, metric, k) => {
            match src.nearest_ids(def, c, q, metric, k) {
                Err(e) => Err(e),
                Ok(at) => {
                    rows_with(src, def, at, 0)
                },
            }
        },
        AccessV::Scan => src.all_rows(def),
    }
}

/// `r` is the rows `want`, all of them of width `n`, or its error.
pub open spec fn gathered(r: Result<Vec<Vec<Value>>, Error>, want: Result<Seq<Seq<ValueV>>, ErrorV>, n: int) -> bool {
    match want {
        Ok(rows) => r is Ok && rows_view(r->Ok_0@) == rows && rows_wide(rows, n),
        Err(e) => r is Err && r->Err_0@ == e,
    }
}

fn fetch<S: DataSource>(src: &S, def: &TableDef, at: &Vec<i64>) -> (r: Result<Vec<Vec<Value>>, Error>)
    ensures
        gathered(r, rows_with(*src, def@, at@, 0), def@.columns.len() as int),
{
    let n: usize = at.len();
    let ghost all = rows_with(*src, def@, at@, 0);
    let ghost w = def@.columns.len() as int;
    let mut out: Vec<Vec<Value>> = Vec::new();
    assert(rows_view(out@) =~= Seq::empty());
    assert(all is Ok ==> Seq::empty() + all->Ok_0 =~= all->Ok_0);
    for i in 0..n
        invariant
            n == at@.len(),
            w == def@.columns.len(),
            all == rows_with(*src, def@, at@, 0),
            rows_wide(rows_view(out@), w),
            (match rows_with(*src, def@, at@, i as int) {
                    Ok(rest) => all == Ok::<_, ErrorV>(rows_view(out@) + rest),
                    Err(e) => all == Err::<Seq<Seq<ValueV>>, ErrorV>(e),
            }),
    {
        let ghost before = rows_view(out@);
        let got = match src.get_row(def, at[i]) {
            Err(e) => {
                return Err(e);
            },
            Ok(g) => g,
        };
        if let Some(row) = got {
            let ghost rv = row_view(row@);
            out.push(row);
            assert(rows_view(out@) =~= before.push(rv));
            proof {
                match rows_with(*src, def@, at@, i + 1) {
                    Ok(rest) => {
                        assert(before + (seq![rv] + rest) =~= rows_view(out@) + rest);
                    },
                    Err(_) => {},
                }
            }
        }
    }
    assert(rows_view(out@) + Seq::<Seq<ValueV>>::empty() =~= rows_view(out@));
    Ok(out)
}

#[verifier::spinoff_prover]
pub fn reach<S: DataSource>(src: &S, def: &TableDef, a: &Access) -> (r: Result<Vec<Vec<Value>>, Error>)
    requires
        access_ok(a@, def@),
    ensures
        gathered(r, reached(*src, def@, a@), def@.columns.len() as int),
{
    let at: Vec<i64> = match a {
        Access::One(id) => {
            let mut out: Vec<Vec<Value>> = Vec::new();
            assert(rows_view(out@) =~= Seq::empty());
            if let Some(row) = src.get_row(def, *id)? {
                let ghost rv = row_view(row@);
                out.push(row);
                assert(rows_view(out@) =~= seq![rv]);
            }
            return Ok(out);
        },
        Access::Scan => {
            return src.scan_rows(def);
        },
        Access::Equal(i, vs) => {
            assert(def@.indexes[*i as int] == def.indexes@[*i as int]@);
            src.index_lookup(def, &def.indexes[*i], vs)?
        },
        Access::From(i, v, inclusive) => {
            assert(def@.indexes[*i as int] == def.indexes@[*i as int]@);
            src.index_range(def, &def.indexes[*i], Some((v, *inclusive)), None)?
        },
        Access::UpTo(i, v, inclusive) => {
            assert(def@.indexes[*i as int] == def.indexes@[*i as int]@);
            src.index_range(def, &def.indexes[*i], None, Some((v, *inclusive)))?
        },
        Access::Matching(i, q) => {
            assert(def@.fts_indexes[*i as int] == def.fts_indexes@[*i as int]@);
            src.fts_search(def, &def.fts_indexes[*i], q)?
        },
        Access::Near(i, q, nprobe, limit) => {
            assert(def@.vector_indexes[*i as int] == def.vector_indexes@[*i as int]@);
            src.vector_search(&def.vector_indexes[*i], q, *nprobe, *limit)?
        },
        Access::Nearest(c, q, metric, k) => src.knn_exact(def, *c, q, *metric, *k)?,
    };
    fetch(src, def, &at)
}

} // verus!
