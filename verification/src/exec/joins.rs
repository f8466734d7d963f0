//! The rows of the tables of a query put together: conditions on one table applied
//! early, joins, and the full-text queries by which rows can be ranked.
use vstd::prelude::*;

use crate::catalog::{clone_table_def, TableDef, TableDefV};
use crate::error::{sql_err, sql_lit, Error, ErrorV};
#[allow(unused_imports)]
use crate::error::sql_error;
use crate::exec::check::collect_bm25;
#[allow(unused_imports)]
use crate::exec::check::{rank_calls, rank_calls_all, ref_pairs_v};
use crate::exec::eval::{eval, eval_const};
#[allow(unused_imports)]
use crate::exec::eval::{indexed_column, value_of};
use crate::exec::ops::{truthy, Env, EnvV};
#[allow(unused_imports)]
use crate::exec::ops::branch;
#[allow(unused_imports)]
use crate::exec::ops::truth;
use crate::exec::schema::{find_fts, QuerySchema};
#[allow(unused_imports)]
use crate::exec::schema::{def_ok, lemma_located, opt_text, rank_named, row_fits, row_width, RankV, SchemaTableV, SchemaV};
use crate::exec::source::DataSource;
#[allow(unused_imports)]
use crate::exec::rows::rows_wide;
#[allow(unused_imports)]
use crate::exec::subquery::item_exprs;
use crate::fts::{parse_query, tokenizer_for};
#[allow(unused_imports)]
use crate::fts::query::parsed_query;
#[allow(unused_imports)]
use crate::fts::registry::registered;
use crate::record::{clone_row, Value, ValueV};
#[allow(unused_imports)]
use crate::record::{row_view, rows_view};
use crate::sql::ast::{BinOp, Expr, ExprV, JoinKind, SelectItem, SelectStmt, SelectStmtV};
#[allow(unused_imports)]
use crate::sql::ast::{order_bys_v, select_items_v};
use crate::sql::walk::parts_of;
#[allow(unused_imports)]
use crate::sql::walk::{expr_size, exprs_size, key_exprs, lemma_exprs_size_elem, lemma_parts_size, parts, refs_v};
use crate::text::{cat3, str_eq};

verus! {

// --- conditions on one table ---

/// The conditions that a conjunction joins.
pub open spec fn conjuncts(e: ExprV) -> Seq<ExprV>
    decreases e,
{
    match e {
        ExprV::Binary(a, BinOp::And, b) => conjuncts(*a) + conjuncts(*b),
        _ => seq![e],
    }
}

fn split_and<'e>(e: &'e Expr, out: &mut Vec<&'e Expr>)
    ensures
        refs_v(final(out)@) == refs_v(old(out)@) + conjuncts(e@),
    decreases e,
{
    let ghost before = refs_v(out@);
    if let Expr::Binary(a, BinOp::And, b) = e {
        split_and(a, out);
        split_and(b, out);
        assert(refs_v(out@) =~= before + conjuncts(e@));
    } else {
        out.push(e);
        assert(refs_v(out@) =~= before + seq![e@]);
    }
}

/// The qualifiers of the columns of an expression; none where a column has none, or
/// where the expression is not one of a row of its table alone.
pub open spec fn column_quals(e: ExprV) -> Option<Seq<Seq<char>>>
    decreases expr_size(e), 0nat,
{
    match e {
        ExprV::Column { table, name: _ } => match table {
            Some(q) => Some(seq![q]),
            None => None,
        },
        ExprV::Aggregate { func: _, arg: _, distinct: _, sep: _ } => None,
        ExprV::Match { column: _, query: _, negated: _ } => None,
        ExprV::ScalarSubquery(_) => None,
        ExprV::Exists(_) => None,
        ExprV::InSubquery { expr: _, query: _, negated: _ } => None,
        ExprV::Window { func: _, args: _, partition_by: _, order_by: _, frame: _ } => None,
        _ => {
            proof {
                lemma_parts_size(e);
            }
            all_column_quals(parts(e))
        },
    }
}

pub open spec fn all_column_quals(es: Seq<ExprV>) -> Option<Seq<Seq<char>>>
    decreases exprs_size(es), 1 + es.len(),
{
    if es.len() == 0 {
        Some(Seq::empty())
    } else {
        match (column_quals(es[0]), all_column_quals(es.drop_first())) {
            (Some(a), Some(b)) => Some(a + b),
            _ => None,
        }
    }
}

#[verifier::loop_isolation(false)]
fn collect_quals<'e>(e: &'e Expr, out: &mut Vec<&'e String>) -> (r: bool)
    ensures
        (match column_quals(e@) {
                Some(qs) => r && strs_v(final(out)@) == strs_v(old(out)@) + qs,
                None => !r,
        }),
    decreases expr_size(e@),
{
    let ghost before = strs_v(out@);
    match e {
        Expr::Column { table, name: _ } => match table {
            Some(q) => {
                out.push(q);
                assert(strs_v(out@) =~= before + seq![q@]);
                true
            },
            None => false,
        },
        Expr::Aggregate { .. } | Expr::Match { .. } | Expr::ScalarSubquery(_) | Expr::Exists(_) | Expr::InSubquery { .. } | Expr::Window { .. } => false,
        _ => {
            let ps = parts_of(e);
            let n: usize = ps.len();
            let ghost all = parts(e@);
            proof {
                lemma_parts_size(e@);
                assert(all.skip(0) =~= all);
            }
            let ghost whole = all_column_quals(all);
            assert(whole is Some ==> before + whole->0 == strs_v(out@) + whole->0);
            for i in 0..n
                invariant
                    n == ps@.len(),
                    refs_v(ps@) == all,
                    exprs_size(all) < expr_size(e@),
                    (match all_column_quals(all.skip(i as int)) {
                            Some(rest) => whole is Some && before + whole->0 == strs_v(out@) + rest,
                            None => whole is None,
                    }),
            {
                proof {
                    lemma_exprs_size_elem(all, i as int);
                    assert(refs_v(ps@)[i as int] == ps@[i as int]@);
                    assert(all.skip(i as int).drop_first() =~= all.skip(i + 1));
                    assert(all.skip(i as int)[0] == all[i as int]);
                }
                let ghost mid = strs_v(out@);
                let x: &'e Expr = ps[i];
                if !collect_quals(x, out) {
                    return false;
                }
                proof {
                    match all_column_quals(all.skip(i + 1)) {
                        Some(rest) => {
                            let a = column_quals(all[i as int])->0;
                            assert(mid + (a + rest) =~= strs_v(out@) + rest);
                        },
                        None => {},
                    }
                }
            }
            assert(all.skip(n as int) =~= Seq::empty());
            assert(strs_v(out@) + Seq::<Seq<char>>::empty() =~= strs_v(out@));
            true
        },
    }
}

pub open spec fn strs_v(s: Seq<&String>) -> Seq<Seq<char>> {
    Seq::new(s.len(), |i: int| s[i]@)
}

/// The one qualifier of all columns of an expression that has columns.
pub open spec fn only_qualifier(e: ExprV) -> Option<Seq<char>> {
    match column_quals(e) {
        Some(qs) => if qs.len() > 0 && (forall|i: int| 0 <= i < qs.len() ==> #[trigger] qs[i] == qs[0]) {
            Some(qs[0])
        } else {
            None
        },
        None => None,
    }
}

/// Whether the columns of `e` all have the qualifier `q`.
fn conjunct_of(e: &Expr, q: &str) -> (r: bool)
    ensures
        r == (only_qualifier(e@) == Some(q@)),
{
    let mut qs: Vec<&String> = Vec::new();
    assert(strs_v(qs@) =~= Seq::empty());
    if !collect_quals(e, &mut qs) {
        return false;
    }
    let ghost all = column_quals(e@)->0;
    assert(strs_v(qs@) =~= all);
    if qs.len() == 0 {
        return false;
    }
    let n: usize = qs.len();
    for i in 0..n
        invariant
            n == qs@.len(),
            strs_v(qs@) == all,
            column_quals(e@) == Some(all),
            forall|k: int| 0 <= k < i ==> #[trigger] all[k] == q@,
    {
        assert(all[i as int] == qs@[i as int]@);
        if !str_eq(qs[i].as_str(), q) {
            assert(only_qualifier(e@) == Some(q@) ==> all[i as int] == all[0]);
            return false;
        }
    }
    assert(all[0] == q@);
    true
}

/// Those of the conditions that concern the table with that qualifier alone.
pub open spec fn conditions_on(cs: Seq<ExprV>, q: Seq<char>) -> Seq<ExprV>
    decreases cs.len(),
{
    if cs.len() == 0 {
        Seq::empty()
    } else if only_qualifier(cs[0]) == Some(q) {
        seq![cs[0]] + conditions_on(cs.drop_first(), q)
    } else {
        conditions_on(cs.drop_first(), q)
    }
}

/// The row satisfies every condition.
pub open spec fn passes(env: EnvV, cs: Seq<ExprV>, s: SchemaV, row: Seq<ValueV>, params: Seq<ValueV>) -> Result<bool, ErrorV>
    decreases cs.len(),
{
    if cs.len() == 0 {
        Ok(true)
    } else {
        match value_of(branch(env, cs.len() as int), cs[0], Some((s, row)), params) {
            Err(e) => Err(e),
            Ok(v) => {
                match truth(v) {
                    Err(e) => Err(e),
                    Ok(b) => {
                        if b {
                            passes(env, cs.drop_first(), s, row, params)
                        } else {
                            Ok(false)
                        }
                    },
                }
            },
        }
    }
}

/// The rows from `i` on that satisfy every condition.
pub open spec fn passing(env: EnvV, cs: Seq<ExprV>, s: SchemaV, rows: Seq<Seq<ValueV>>, params: Seq<ValueV>, i: int) -> Result<Seq<Seq<ValueV>>, ErrorV>
    decreases rows.len() - i,
{
    if i < 0 || i >= rows.len() {
        Ok(Seq::empty())
    } else {
        match passes(branch(env, i), cs, s, rows[i], params) {
            Err(e) => Err(e),
            Ok(b) => {
                match passing(env, cs, s, rows, params, i + 1) {
                    Err(e) => Err(e),
                    Ok(rest) => {
                        if b {
                            Ok(seq![rows[i]] + rest)
                        } else {
                            Ok(rest)
                        }
                    },
                }
            },
        }
    }
}

/// The schema of one table.
pub open spec fn one_table(q: Seq<char>, def: TableDefV) -> SchemaV {
    SchemaV { tables: seq![SchemaTableV { qualifier: q, def, offset: 0 }], ranks: Seq::empty() }
}

/// The rows of a table that its own conditions leave.
pub open spec fn prefiltered(env: EnvV, rows: Seq<Seq<ValueV>>, q: Seq<char>, def: TableDefV, cs: Seq<ExprV>, params: Seq<ValueV>) -> Result<Seq<Seq<ValueV>>, ErrorV> {
    let mine = conditions_on(cs, q);
    if mine.len() == 0 {
        Ok(rows)
    } else {
        passing(env, mine, one_table(q, def), rows, params, 0)
    }
}

fn row_passes(env: &Env, cs: &Vec<&Expr>, schema: &QuerySchema, row: &Vec<Value>, params: &Vec<Value>) -> (r: Result<bool, Error>)
    requires
        row_fits(Some((schema, row))),
    ensures
        (match passes(env@, refs_v(cs@), schema@, row_view(row@), row_view(params@)) {
                Ok(b) => r == Ok::<bool, Error>(b),
                Err(e) => r is Err && r->Err_0@ == e,
        }),
{
    let n: usize = cs.len();
    let ghost all = refs_v(cs@);
    let ghost rv = row_view(row@);
    let ghost pv = row_view(params@);
    assert(all.skip(0) =~= all);
    for i in 0..n
        invariant
            n == cs@.len(),
            all == refs_v(cs@),
            rv == row_view(row@),
            pv == row_view(params@),
            row_fits(Some((schema, row))),
            passes(env@, all, schema@, rv, pv) == passes(env@, all.skip(i as int), schema@, rv, pv),
    {
        assert(all[i as int] == cs@[i as int]@);
        assert(all.skip(i as int)[0] == all[i as int]);
        assert(all.skip(i as int).drop_first() =~= all.skip(i + 1));
        let v = eval(&env.branch(n - i), cs[i], Some((schema, row)), params)?;
        if !truthy(&v)? {
            return Ok(false);
        }
    }
    assert(all.skip(n as int) =~= Seq::empty());
    Ok(true)
}

/// The conditions on one table, of those that a list holds.
fn pick_conditions<'e>(cs: &Vec<&'e Expr>, q: &str) -> (r: Vec<&'e Expr>)
    ensures
        refs_v(r@) == conditions_on(refs_v(cs@), q@),
{
    let n: usize = cs.len();
    let ghost all = refs_v(cs@);
    let ghost want = conditions_on(all, q@);
    let mut out: Vec<&'e Expr> = Vec::new();
    assert(all.skip(0) =~= all);
    assert(refs_v(out@) + want =~= want);
    for i in 0..n
        invariant
            n == cs@.len(),
            all == refs_v(cs@),
            refs_v(out@) + conditions_on(all.skip(i as int), q@) == want,
    {
        let ghost before = refs_v(out@);
        assert(all[i as int] == cs@[i as int]@);
        assert(all.skip(i as int)[0] == all[i as int]);
        assert(all.skip(i as int).drop_first() =~= all.skip(i + 1));
        if conjunct_of(cs[i], q) {
            let x: &'e Expr = cs[i];
            out.push(x);
            assert(refs_v(out@) =~= before.push(x@));
            assert(before + (seq![x@] + conditions_on(all.skip(i + 1), q@)) =~= refs_v(out@) + conditions_on(all.skip(i + 1), q@));
        }
    }
    assert(all.skip(n as int) =~= Seq::empty());
    assert(refs_v(out@) + Seq::<ExprV>::empty() =~= refs_v(out@));
    out
}

/// `r` is the rows `want`, all of them of width `n`, or its error.
pub open spec fn kept(r: Result<Vec<Vec<Value>>, Error>, want: Result<Seq<Seq<ValueV>>, ErrorV>, n: int) -> bool {
    match want {
        Ok(rows) => r is Ok && rows_view(r->Ok_0@) == rows && rows_wide(rows, n),
        Err(e) => r is Err && r->Err_0@ == e,
    }
}

pub fn prefilter(env: &Env, rows: Vec<Vec<Value>>, q: &str, def: &TableDef, cs: &Vec<&Expr>, params: &Vec<Value>) -> (r: Result<Vec<Vec<Value>>, Error>)
    requires
        def_ok(def@),
        rows_wide(rows_view(rows@), def@.columns.len() as int),
    ensures
        kept(r, prefiltered(env@, rows_view(rows@), q@, def@, refs_v(cs@), row_view(params@)), def@.columns.len() as int),
{
    let mine = pick_conditions(cs, q);
    assert(refs_v(mine@).len() == mine@.len());
    if mine.len() == 0 {
        return Ok(rows);
    }
    let schema = QuerySchema::single(q, clone_table_def(def));
    assert(schema@ =~= one_table(q@, def@));
    let n: usize = rows.len();
    let ghost rv = rows_view(rows@);
    let ghost pv = row_view(params@);
    let ghost ms = refs_v(mine@);
    let ghost all = passing(env@, ms, schema@, rv, pv, 0);
    let mut out: Vec<Vec<Value>> = Vec::new();
    assert(rows_view(out@) =~= Seq::empty());
    assert(all is Ok ==> Seq::empty() + all->Ok_0 =~= all->Ok_0);
    for i in 0..n
        invariant
            n == rows@.len(),
            rv == rows_view(rows@),
            pv == row_view(params@),
            ms == refs_v(mine@),
            prefiltered(env@, rv, q@, def@, refs_v(cs@), pv) == all,
            schema.wf(),
            row_width(schema@.tables) == def@.columns.len(),
            rows_wide(rv, def@.columns.len() as int),
            rows_wide(rows_view(out@), def@.columns.len() as int),
            all == passing(env@, ms, schema@, rv, pv, 0),
            (match passing(env@, ms, schema@, rv, pv, i as int) {
                    Ok(rest) => all == Ok::<_, ErrorV>(rows_view(out@) + rest),
                    Err(e) => all == Err::<Seq<Seq<ValueV>>, ErrorV>(e),
            }),
    {
        assert(rv[i as int] == row_view(rows@[i as int]@));
        let ghost before = rows_view(out@);
        if row_passes(&env.branch(i), &mine, &schema, &rows[i], params)? {
            out.push(clone_row(&rows[i]));
            assert(rows_view(out@) =~= before.push(rv[i as int]));
            proof {
                match passing(env@, ms, schema@, rv, pv, i + 1) {
                    Ok(rest) => {
                        assert(before + (seq![rv[i as int]] + rest) =~= rows_view(out@) + rest);
                    },
                    Err(_) => {},
                }
            }
        }
    }
    assert(rows_view(out@) + Seq::<Seq<ValueV>>::empty() =~= rows_view(out@));
    Ok(out)
}

/// The conditions of a WHERE.
pub open spec fn conditions(w: Option<ExprV>) -> Seq<ExprV> {
    match w {
        Some(e) => conjuncts(e),
        None => Seq::empty(),
    }
}

pub fn conditions_of<'e>(w: &'e Option<Expr>) -> (r: Vec<&'e Expr>)
    ensures
        refs_v(r@) == conditions(crate::exec::subquery::opt_expr_v(*w)),
{
    let mut out: Vec<&'e Expr> = Vec::new();
    assert(refs_v(out@) =~= Seq::empty());
    match w {
        Some(e) => {
            split_and(e, &mut out);
            assert(Seq::<ExprV>::empty() + conjuncts(e@) =~= conjuncts(e@));
        },
        None => {},
    }
    out
}

// --- joins ---

/// The pairs of `left` with the right rows from `j` on for which the condition holds.
pub open spec fn partners(env: EnvV, left: Seq<ValueV>, right: Seq<Seq<ValueV>>, on: ExprV, s: SchemaV, params: Seq<ValueV>, j: int) -> Result<Seq<Seq<ValueV>>, ErrorV>
    decreases right.len() - j,
{
    if j < 0 || j >= right.len() {
        Ok(Seq::empty())
    } else {
        let both = left + right[j];
        match value_of(branch(env, j), on, Some((s, both)), params) {
            Err(e) => Err(e),
            Ok(v) => {
                match truth(v) {
                    Err(e) => Err(e),
                    Ok(b) => {
                        match partners(env, left, right, on, s, params, j + 1) {
                            Err(e) => Err(e),
                            Ok(rest) => {
                                if b {
                                    Ok(seq![both] + rest)
                                } else {
                                    Ok(rest)
                                }
                            },
                        }
                    },
                }
            },
        }
    }
}

/// `n` NULLs.
pub open spec fn nulls(n: nat) -> Seq<ValueV> {
    Seq::new(n, |i: int| ValueV::Null)
}

/// The left rows from `i` on, each with its partners; in a left join one without a
/// partner stays, with NULLs.
pub open spec fn joined(env: EnvV, left: Seq<Seq<ValueV>>, right: Seq<Seq<ValueV>>, kind: JoinKind, on: ExprV, s: SchemaV, width: nat, params: Seq<ValueV>, i: int) -> Result<Seq<Seq<ValueV>>, ErrorV>
    decreases left.len() - i,
{
    if i < 0 || i >= left.len() {
        Ok(Seq::empty())
    } else {
        match partners(branch(env, i), left[i], right, on, s, params, 0) {
            Err(e) => Err(e),
            Ok(ps) => {
                match joined(env, left, right, kind, on, s, width, params, i + 1) {
                    Err(e) => Err(e),
                    Ok(rest) => {
                        if ps.len() == 0 && kind == JoinKind::Left {
                            Ok(seq![left[i] + nulls(width)] + rest)
                        } else {
                            Ok(ps + rest)
                        }
                    },
                }
            },
        }
    }
}

fn glue(a: &Vec<Value>, b: &Vec<Value>) -> (r: Vec<Value>)
    ensures
        row_view(r@) == row_view(a@) + row_view(b@),
{
    let mut out = clone_row(a);
    let n: usize = b.len();
    let ghost bv = row_view(b@);
    assert(row_view(out@) =~= row_view(a@) + bv.take(0));
    for i in 0..n
        invariant
            n == b@.len(),
            bv == row_view(b@),
            row_view(out@) == row_view(a@) + bv.take(i as int),
    {
        let ghost before = row_view(out@);
        assert(bv[i as int] == b@[i as int]@);
        out.push(b[i].clone());
        assert(row_view(out@) =~= before.push(bv[i as int]));
        assert(row_view(a@) + bv.take(i + 1) =~= before.push(bv[i as int]));
    }
    assert(bv.take(n as int) =~= bv);
    out
}

fn padded(a: &Vec<Value>, n: usize) -> (r: Vec<Value>)
    ensures
        row_view(r@) == row_view(a@) + nulls(n as nat),
{
    let mut out = clone_row(a);
    assert(row_view(out@) =~= row_view(a@) + nulls(0));
    for i in 0..n
        invariant
            row_view(out@) == row_view(a@) + nulls(i as nat),
    {
        let ghost before = row_view(out@);
        out.push(Value::Null);
        assert(row_view(out@) =~= before.push(ValueV::Null));
        assert(row_view(a@) + nulls((i + 1) as nat) =~= before.push(ValueV::Null));
    }
    out
}

fn pair_with(env: &Env, left: &Vec<Value>, right: &Vec<Vec<Value>>, on: &Expr, schema: &QuerySchema, params: &Vec<Value>, out: &mut Vec<Vec<Value>>) -> (r: Result<bool, Error>)
    requires
        schema.wf(),
        forall|j: int| 0 <= j < right@.len() ==> left@.len() + (#[trigger] right@[j])@.len() == row_width(schema@.tables),
        rows_wide(rows_view(old(out)@), row_width(schema@.tables) as int),
    ensures
        (match partners(env@, row_view(left@), rows_view(right@), on@, schema@, row_view(params@), 0) {
                Ok(ps) => r == Ok::<bool, Error>(ps.len() > 0) && rows_view(final(out)@) == rows_view(old(out)@) + ps && rows_wide(rows_view(final(out)@), row_width(schema@.tables) as int),
                Err(e) => r is Err && r->Err_0@ == e,
        }),
{
    let n: usize = right.len();
    let ghost lv = row_view(left@);
    let ghost rv = rows_view(right@);
    let ghost pv = row_view(params@);
    let ghost start = rows_view(out@);
    let ghost all = partners(env@, lv, rv, on@, schema@, pv, 0);
    let mut any = false;
    assert(all is Ok ==> start + all->Ok_0 == rows_view(out@) + all->Ok_0);
    for j in 0..n
        invariant
            n == right@.len(),
            lv == row_view(left@),
            rv == rows_view(right@),
            pv == row_view(params@),
            schema.wf(),
            forall|j: int| 0 <= j < right@.len() ==> left@.len() + (#[trigger] right@[j])@.len() == row_width(schema@.tables),
            rows_wide(rows_view(out@), row_width(schema@.tables) as int),
            all == partners(env@, lv, rv, on@, schema@, pv, 0),
            rows_view(out@).len() >= start.len(),
            any == (rows_view(out@).len() > start.len()),
            (match partners(env@, lv, rv, on@, schema@, pv, j as int) {
                    Ok(rest) => all is Ok && start + all->Ok_0 == rows_view(out@) + rest,
                    Err(e) => all == Err::<Seq<Seq<ValueV>>, ErrorV>(e),
            }),
    {
        assert(rv[j as int] == row_view(right@[j as int]@));
        let both = glue(left, &right[j]);
        let ghost bv = row_view(both@);
        assert(bv.len() == both@.len());
        let ghost before = rows_view(out@);
        let v = eval(&env.branch(j), on, Some((schema, &both)), params)?;
        if truthy(&v)? {
            out.push(both);
            any = true;
            assert(rows_view(out@) =~= before.push(bv));
            proof {
                match partners(env@, lv, rv, on@, schema@, pv, j + 1) {
                    Ok(rest) => {
                        assert(before + (seq![bv] + rest) =~= rows_view(out@) + rest);
                    },
                    Err(_) => {},
                }
            }
        }
    }
    assert(rows_view(out@) + Seq::<Seq<ValueV>>::empty() =~= rows_view(out@));
    Ok(any)
}

#[verifier::spinoff_prover]
#[verifier::rlimit(40)]
pub fn join_rows(env: &Env, left: &Vec<Vec<Value>>, right: &Vec<Vec<Value>>, kind: JoinKind, on: &Expr, schema: &QuerySchema, width: usize, params: &Vec<Value>) -> (r: Result<Vec<Vec<Value>>, Error>)
    requires
        schema.wf(),
        row_width(schema@.tables) >= width,
        rows_wide(rows_view(left@), row_width(schema@.tables) - width),
        rows_wide(rows_view(right@), width as int),
    ensures
        kept(r, joined(env@, rows_view(left@), rows_view(right@), kind, on@, schema@, width as nat, row_view(params@), 0), row_width(schema@.tables) as int),
{
    let n: usize = left.len();
    let ghost lv = rows_view(left@);
    let ghost rv = rows_view(right@);
    let ghost pv = row_view(params@);
    let ghost w = row_width(schema@.tables) as int;
    let ghost all = joined(env@, lv, rv, kind, on@, schema@, width as nat, pv, 0);
    let mut out: Vec<Vec<Value>> = Vec::new();
    assert(rows_view(out@) =~= Seq::empty());
    assert(all is Ok ==> Seq::empty() + all->Ok_0 =~= all->Ok_0);
    assert forall|j: int| 0 <= j < right@.len() implies (#[trigger] right@[j])@.len() == width by {
        assert(rv[j] == row_view(right@[j]@));
    }
    for i in 0..n
        invariant
            n == left@.len(),
            lv == rows_view(left@),
            rv == rows_view(right@),
            pv == row_view(params@),
            w == row_width(schema@.tables),
            schema.wf(),
            w >= width,
            rows_wide(lv, w - width),
            forall|j: int| 0 <= j < right@.len() ==> (#[trigger] right@[j])@.len() == width,
            rows_wide(rows_view(out@), w),
            all == joined(env@, lv, rv, kind, on@, schema@, width as nat, pv, 0),
            (match joined(env@, lv, rv, kind, on@, schema@, width as nat, pv, i as int) {
                    Ok(rest) => all == Ok::<_, ErrorV>(rows_view(out@) + rest),
                    Err(e) => all == Err::<Seq<Seq<ValueV>>, ErrorV>(e),
            }),
    {
        assert(lv[i as int] == row_view(left@[i as int]@));
        assert(lv[i as int].len() == w - width);
        assert(left@[i as int]@.len() == w - width);
        let ghost before = rows_view(out@);
        let any: bool = pair_with(&env.branch(i), &left[i], right, on, schema, params, &mut out)?;
        let ghost ps = partners(branch(env@, i as int), lv[i as int], rv, on@, schema@, pv, 0)->Ok_0;
        if !any && kind == JoinKind::Left {
            let row = padded(&left[i], width);
            let ghost nv = row_view(row@);
            assert(rows_view(out@) =~= before);
            out.push(row);
            assert(rows_view(out@) =~= before.push(nv));
            proof {
                match joined(env@, lv, rv, kind, on@, schema@, width as nat, pv, i + 1) {
                    Ok(rest) => {
                        assert(before + (seq![nv] + rest) =~= rows_view(out@) + rest);
                    },
                    Err(_) => {},
                }
            }
        } else {
            proof {
                match joined(env@, lv, rv, kind, on@, schema@, width as nat, pv, i + 1) {
                    Ok(rest) => {
                        assert(before + (ps + rest) =~= rows_view(out@) + rest);
                    },
                    Err(_) => {},
                }
            }
        }
    }
    assert(rows_view(out@) + Seq::<Seq<ValueV>>::empty() =~= rows_view(out@));
    Ok(out)
}

// --- ranks ---

/// The calls of `bm25` in the projection and the sort keys.
pub open spec fn ranked_calls(stmt: SelectStmtV) -> Seq<(ExprV, ExprV)> {
    rank_calls_all(item_exprs(stmt.projection)) + rank_calls_all(key_exprs(stmt.order_by))
}

/// The index and the text of a ranked query.
pub open spec fn ranked_query(env: EnvV, s: SchemaV, call: (ExprV, ExprV), params: Seq<ValueV>) -> Result<(u32, Seq<char>, Seq<char>), ErrorV> {
    match call.0 {
        ExprV::Column { table, name } => {
            match value_of(env, call.1, None, params) {
                Err(e) => Err(e),
                Ok(v) => {
                    match v {
                        ValueV::Text(q) => {
                            match indexed_column(s, table, name) {
                                Err(e) => Err(e),
                                Ok(at) => {
                                    let f = s.tables[at.0].def.fts_indexes[at.2];
                                    Ok((f.fts_id, q, f.tokenizer))
                                },
                            }
                        },
                        _ => Err(sql_error("bm25(): la consulta debe ser texto constante"@)),
                    }
                },
            }
        },
        _ => Err(sql_error("bm25(): el primer argumento debe ser una columna indexada"@)),
    }
}

/// The schema with the queries of the calls from `i` on made ranked: the store is asked for
/// the statistics of each of them once, whether or not there are rows.
pub open spec fn with_ranks<S: DataSource>(src: S, env: EnvV, s: SchemaV, calls: Seq<(ExprV, ExprV)>, params: Seq<ValueV>, i: int) -> Result<SchemaV, ErrorV>
    decreases calls.len() - i,
{
    if i < 0 || i >= calls.len() {
        Ok(s)
    } else {
        match ranked_query(branch(env, i), s, calls[i], params) {
            Err(e) => Err(e),
            Ok(rq) => {
                if rank_named(s.ranks, rq.0, rq.1, 0) is Some {
                    with_ranks(src, env, s, calls, params, i + 1)
                } else {
                    match registered(rq.2) {
                        Err(e) => Err(e),
                        Ok(tk) => {
                            match parsed_query(rq.1) {
                                Err(e) => Err(e),
                                Ok(q) => {
                                    match src.rank_stats(rq.0, q) {
                                        Err(e) => Err(e),
                                        Ok(stats) => {
                                            with_ranks(src, env, SchemaV { tables: s.tables, ranks: s.ranks.push(RankV { fts_id: rq.0, query: rq.1, stats }) }, calls, params, i + 1)
                                        },
                                    }
                                },
                            }
                        },
                    }
                }
            },
        }
    }
}

#[verifier::spinoff_prover]
#[verifier::rlimit(60)]
fn calls_of<'e>(stmt: &'e SelectStmt) -> (r: Vec<(&'e Expr, &'e Expr)>)
    ensures
        ref_pairs_v(r@) == ranked_calls(stmt@),
{
    let mut out: Vec<(&'e Expr, &'e Expr)> = Vec::new();
    assert(ref_pairs_v(out@) =~= Seq::empty());
    let ghost items = select_items_v(stmt.projection@);
    let n: usize = stmt.projection.len();
    assert(items.skip(0) =~= items);
    let ghost head = rank_calls_all(item_exprs(items));
    assert(ref_pairs_v(out@) + head =~= head);
    for i in 0..n
        invariant
            n == stmt.projection@.len(),
            items == select_items_v(stmt.projection@),
            ref_pairs_v(out@) + rank_calls_all(item_exprs(items.skip(i as int))) == head,
    {
        let ghost before = ref_pairs_v(out@);
        let ghost tail = item_exprs(items.skip(i + 1));
        assert(items[i as int] == stmt.projection@[i as int]@);
        assert(items.skip(i as int)[0] == items[i as int]);
        assert(items.skip(i as int).drop_first() =~= items.skip(i + 1));
        match &stmt.projection[i] {
            SelectItem::Star => {},
            SelectItem::Expr { expr, alias: _ } => {
                collect_bm25(expr, &mut out);
                let ghost rest = rank_calls_all(tail);
                assert((seq![expr@] + tail).drop_first() =~= tail);
                assert(rank_calls_all(seq![expr@] + tail) == rank_calls(expr@) + rest);
                assert(before + (rank_calls(expr@) + rest) =~= ref_pairs_v(out@) + rest);
            },
        }
    }
    assert(items.skip(n as int) =~= Seq::empty());
    assert(ref_pairs_v(out@) + Seq::<(ExprV, ExprV)>::empty() =~= ref_pairs_v(out@));
    let ghost keys = key_exprs(order_bys_v(stmt.order_by@));
    let m: usize = stmt.order_by.len();
    let ghost all = head + rank_calls_all(keys);
    assert(keys.skip(0) =~= keys);
    for i in 0..m
        invariant
            m == stmt.order_by@.len(),
            keys == key_exprs(order_bys_v(stmt.order_by@)),
            ref_pairs_v(out@) + rank_calls_all(keys.skip(i as int)) == all,
    {
        let ghost before = ref_pairs_v(out@);
        assert(order_bys_v(stmt.order_by@)[i as int] == stmt.order_by@[i as int]@);
        assert(keys.skip(i as int)[0] == stmt.order_by@[i as int].expr@);
        assert(keys.skip(i as int).drop_first() =~= keys.skip(i + 1));
        collect_bm25(&stmt.order_by[i].expr, &mut out);
        let ghost c = rank_calls(stmt.order_by@[i as int].expr@);
        assert(before + (c + rank_calls_all(keys.skip(i + 1))) =~= ref_pairs_v(out@) + rank_calls_all(keys.skip(i + 1)));
    }
    assert(keys.skip(m as int) =~= Seq::empty());
    assert(ref_pairs_v(out@) + Seq::<(ExprV, ExprV)>::empty() =~= ref_pairs_v(out@));
    out
}

#[verifier::spinoff_prover]
#[verifier::rlimit(40)]
pub fn precompute_bm25<S: DataSource>(src: &S, env: &Env, schema: &mut QuerySchema, stmt: &SelectStmt, params: &Vec<Value>) -> (r: Result<(), Error>)
    requires
        old(schema).wf(),
    ensures
        final(schema).wf(),
        (match with_ranks(*src, env@, old(schema)@, ranked_calls(stmt@), row_view(params@), 0) {
                Ok(s) => r is Ok && final(schema)@ == s && s.tables == old(schema)@.tables,
                Err(e) => r is Err && r->Err_0@ == e,
        }),
{
    let calls = calls_of(stmt);
    let n: usize = calls.len();
    let ghost cs = ref_pairs_v(calls@);
    let ghost pv = row_view(params@);
    let ghost all = with_ranks(*src, env@, schema@, cs, pv, 0);
    let ghost tables = schema@.tables;
    for i in 0..n
        invariant
            n == calls@.len(),
            cs == ref_pairs_v(calls@),
            pv == row_view(params@),
            schema.wf(),
            schema@.tables == tables,
            tables == old(schema)@.tables,
            all == with_ranks(*src, env@, old(schema)@, ranked_calls(stmt@), row_view(params@), 0),
            all == with_ranks(*src, env@, schema@, cs, pv, i as int),
    {
        assert(cs[i as int] == (calls@[i as int].0@, calls@[i as int].1@));
        let col: &Expr = calls[i].0;
        let query: &Expr = calls[i].1;
        let (table, name) = match col {
            Expr::Column { table, name } => (table, name),
            _ => {
                return Err(sql_lit("bm25(): el primer argumento debe ser una columna indexada"));
            },
        };
        let q: String = match eval_const(&env.branch(i), query, params)? {
            Value::Text(t) => t,
            _ => {
                return Err(sql_lit("bm25(): la consulta debe ser texto constante"));
            },
        };
        let (t, c): (usize, usize) = schema.locate(table, name.as_str())?;
        proof {
            lemma_located(schema@, opt_text(*table), name@);
        }
        assert(schema@.tables[t as int] == schema.tables@[t as int]@);
        let f: usize = match find_fts(&schema.tables[t].def.fts_indexes, c) {
            Some(f) => f,
            None => {
                return Err(sql_err(cat3("la columna «", name.as_str(), "» no tiene un índice FULLTEXT")));
            },
        };
        assert(schema@.tables[t as int].def.fts_indexes[f as int] == schema.tables@[t as int].def.fts_indexes@[f as int]@);
        let id: u32 = schema.tables[t].def.fts_indexes[f].fts_id;
        if schema.rank_of(id, q.as_str()).is_none() {
            let _tk = tokenizer_for(schema.tables[t].def.fts_indexes[f].tokenizer.as_str())?;
            let query = parse_query(q.as_str())?;
            let stats = src.fts_stats(id, &query)?;
            schema.add_rank(id, q, stats);
        }
    }
    Ok(())
}

} // verus!
