//! Writing rows: the values of a new row, the rows that a statement changes, and the
//! statements that triggers run.
use vstd::prelude::*;

use crate::catalog::{ColType, ColumnSpec, ColumnSpecV, TableDef, TableDefV, TableSpec, TableSpecV, TriggerDef, TriggerDefV, TriggerForEach};
#[allow(unused_imports)]
use crate::catalog::{column_specs_v, strings_v};
use crate::catalog::{clone_foreign_key_specs, clone_strings, clone_stringss};
#[allow(unused_imports)]
use crate::catalog::{foreign_key_specs_v, stringss_v};
use crate::error::{sql_err, sql_lit, Error, ErrorV};
#[allow(unused_imports)]
use crate::error::{gives, sql_error};
use crate::exec::eval::{eval, eval_const};
#[allow(unused_imports)]
use crate::exec::eval::value_of;
use crate::exec::ops::{Env, EnvV};
#[allow(unused_imports)]
use crate::exec::ops::branch;
use crate::exec::output::{SelectOut, SelectOutV};
#[allow(unused_imports)]
use crate::exec::output::{fits, ints};
use crate::exec::plan::find_place;
#[allow(unused_imports)]
use crate::exec::plan::place_named;
#[allow(unused_imports)]
use crate::exec::rows::in_range;
use crate::exec::schema::find_column;
#[allow(unused_imports)]
use crate::exec::schema::{column_named, def_ok};
use crate::record::{Value, ValueV};
#[allow(unused_imports)]
use crate::record::{row_view, rows_view};
use crate::sql::ast::{clone_column_ast, clone_expr, clone_on_conflict, clone_select_items, clone_stmt, ColumnAst, ColumnAstV, Expr, ExprV, InsertSource, InsertSourceV, SelectItem, Stmt, StmtV};
#[allow(unused_imports)]
use crate::sql::ast::{column_asts_v, exprs_v, exprss_v, select_items_v, string_expr_pairs_v};
use crate::sql::walk::{parts_of, rebuild};
#[allow(unused_imports)]
use crate::sql::walk::{expr_size, exprs_size, lemma_exprs_size_elem, lemma_parts_size, mentions_param, parts, refs_v, with_parts};
use crate::text::{cat, cat3, str_eq, u64_text, upper_ascii};
#[allow(unused_imports)]
use crate::text::{ascii_upper_all, nat_text};

verus! {

// --- OLD, NEW and EXCLUDED ---

/// A row that an expression may name beside those of its tables.
pub open spec fn opt_row(r: Option<&Vec<Value>>) -> Option<Seq<ValueV>> {
    match r {
        Some(v) => Some(row_view(v@)),
        None => None,
    }
}

/// A qualifier that names a row of a trigger or of an upsert, in any case.
pub open spec fn names_row(q: Seq<char>) -> bool {
    ascii_upper_all(q) == "OLD"@ || ascii_upper_all(q) == "NEW"@ || ascii_upper_all(q) == "EXCLUDED"@
}

/// The value of a column of such a row.
pub open spec fn row_column(q: Seq<char>, name: Seq<char>, def: TableDefV, before: Option<Seq<ValueV>>, after: Option<Seq<ValueV>>) -> Result<ExprV, ErrorV> {
    match (if ascii_upper_all(q) == "OLD"@ {
            before
        } else {
            after
    }) {
        None => Err(sql_error(ascii_upper_all(q) + " no está disponible aquí"@)),
        Some(vs) => match place_named(def.columns, name, 0) {
            None => Err(sql_error("columna desconocida: "@ + q + "."@ + name)),
            Some(i) => Ok(ExprV::Literal(vs[i])),
        },
    }
}

/// The expression with the values of the rows that it names; subqueries are left as
/// they are.
pub open spec fn with_rows(e: ExprV, def: TableDefV, before: Option<Seq<ValueV>>, after: Option<Seq<ValueV>>) -> Result<ExprV, ErrorV>
    decreases expr_size(e), 0nat,
{
    proof {
        lemma_parts_size(e);
    }
    match e {
        ExprV::Column { table: Some(q), name } if names_row(q) => row_column(q, name, def, before, after),
        ExprV::ScalarSubquery(_) => Ok(e),
        ExprV::Exists(_) => Ok(e),
        ExprV::InSubquery { expr: _, query: _, negated: _ } => Ok(e),
        _ => {
            match all_with_rows(parts(e), def, before, after) {
                Err(e) => Err(e),
                Ok(ps) => {
                    Ok(with_parts(e, ps))
                },
            }
        },
    }
}

pub open spec fn all_with_rows(es: Seq<ExprV>, def: TableDefV, before: Option<Seq<ValueV>>, after: Option<Seq<ValueV>>) -> Result<Seq<ExprV>, ErrorV>
    decreases exprs_size(es), 1 + es.len(),
{
    if es.len() == 0 {
        Ok(Seq::empty())
    } else {
        match with_rows(es[0], def, before, after) {
            Err(e) => Err(e),
            Ok(x) => {
                match all_with_rows(es.drop_first(), def, before, after) {
                    Err(e) => Err(e),
                    Ok(rest) => {
                        Ok(seq![x] + rest)
                    },
                }
            },
        }
    }
}

/// The rows have a value for every column of the table.
pub open spec fn rows_of(def: TableDefV, before: Option<&Vec<Value>>, after: Option<&Vec<Value>>) -> bool {
    (before is Some ==> before->0@.len() == def.columns.len()) && (after is Some ==> after->0@.len() == def.columns.len())
}

#[verifier::spinoff_prover]
#[verifier::rlimit(40)]
pub fn subst_expr(e: &Expr, def: &TableDef, before: Option<&Vec<Value>>, after: Option<&Vec<Value>>) -> (r: Result<Expr, Error>)
    requires
        rows_of(def@, before, after),
    ensures
        gives(r, with_rows(e@, def@, opt_row(before), opt_row(after))),
    decreases expr_size(e@), 0nat,
{
    proof {
        lemma_parts_size(e@);
    }
    match e {
        Expr::Column { table: Some(q), name } => {
            let upper = upper_ascii(q.as_str());
            let is_before: bool = str_eq(upper.as_str(), "OLD");
            if is_before || str_eq(upper.as_str(), "NEW") || str_eq(upper.as_str(), "EXCLUDED") {
                let chosen: Option<&Vec<Value>> = if is_before {
                    before
                } else {
                    after
                };
                match chosen {
                    None => Err(sql_err(cat(upper.as_str(), " no está disponible aquí"))),
                    Some(vs) => match find_place(&def.columns, name.as_str()) {
                        None => {
                            let head = cat("columna desconocida: ", q.as_str());
                            Err(sql_err(cat3(head.as_str(), ".", name.as_str())))
                        },
                        Some(i) => {
                            assert(row_view(vs@)[i as int] == vs@[i as int]@);
                            Ok(Expr::Literal(vs[i].clone()))
                        },
                    },
                }
            } else {
                assert(parts(e@) =~= Seq::empty());
                Ok(clone_expr(e))
            }
        },
        Expr::ScalarSubquery(_) => Ok(clone_expr(e)),
        Expr::Exists(_) => Ok(clone_expr(e)),
        Expr::InSubquery { .. } => Ok(clone_expr(e)),
        _ => {
            let ps = parts_of(e);
            let out = subst_refs(&ps, def, before, after)?;
            Ok(rebuild(e, out))
        },
    }
}

fn subst_refs(ps: &Vec<&Expr>, def: &TableDef, before: Option<&Vec<Value>>, after: Option<&Vec<Value>>) -> (r: Result<Vec<Expr>, Error>)
    requires
        rows_of(def@, before, after),
    ensures
        (match all_with_rows(refs_v(ps@), def@, opt_row(before), opt_row(after)) {
                Ok(es) => r is Ok && exprs_v(r->Ok_0@) == es && r->Ok_0@.len() == ps@.len(),
                Err(e) => r is Err && r->Err_0@ == e,
        }),
    decreases exprs_size(refs_v(ps@)), 1nat,
{
    let n: usize = ps.len();
    let ghost all = refs_v(ps@);
    let ghost b = opt_row(before);
    let ghost a = opt_row(after);
    let ghost whole = all_with_rows(all, def@, b, a);
    let mut out: Vec<Expr> = Vec::new();
    assert(exprs_v(out@) =~= Seq::empty());
    assert(all.skip(0) =~= all);
    assert(whole is Ok ==> Seq::empty() + whole->Ok_0 =~= whole->Ok_0);
    for i in 0..n
        invariant
            n == ps@.len(),
            all == refs_v(ps@),
            b == opt_row(before),
            a == opt_row(after),
            rows_of(def@, before, after),
            whole == all_with_rows(all, def@, b, a),
            out@.len() == i,
            (match all_with_rows(all.skip(i as int), def@, b, a) {
                    Ok(rest) => whole == Ok::<_, ErrorV>(exprs_v(out@) + rest),
                    Err(e) => whole == Err::<Seq<ExprV>, ErrorV>(e),
            }),
    {
        proof {
            lemma_exprs_size_elem(all, i as int);
            assert(all[i as int] == ps@[i as int]@);
            assert(all.skip(i as int).drop_first() =~= all.skip(i + 1));
            assert(all.skip(i as int)[0] == all[i as int]);
        }
        let ghost start = exprs_v(out@);
        let p = subst_expr(ps[i], def, before, after)?;
        let ghost pv = p@;
        out.push(p);
        assert(exprs_v(out@) =~= start.push(pv));
        proof {
            match all_with_rows(all.skip(i + 1), def@, b, a) {
                Ok(rest) => {
                    assert(start + (seq![pv] + rest) =~= exprs_v(out@) + rest);
                },
                Err(_) => {},
            }
        }
    }
    assert(all.skip(n as int) =~= Seq::empty());
    assert(exprs_v(out@) + Seq::<ExprV>::empty() =~= exprs_v(out@));
    Ok(out)
}

fn refs_of(es: &Vec<Expr>) -> (r: Vec<&Expr>)
    ensures
        refs_v(r@) == exprs_v(es@),
{
    let n: usize = es.len();
    let mut out: Vec<&Expr> = Vec::new();
    for i in 0..n
        invariant
            n == es@.len(),
            out@.len() == i,
            forall|k: int| 0 <= k < i ==> (#[trigger] out@[k])@ == es@[k]@,
    {
        out.push(&es[i]);
    }
    assert(refs_v(out@) =~= exprs_v(es@));
    out
}

/// Rows of expressions from `i` on.
pub open spec fn rows_with_rows(rows: Seq<Seq<ExprV>>, def: TableDefV, before: Option<Seq<ValueV>>, after: Option<Seq<ValueV>>, i: int) -> Result<Seq<Seq<ExprV>>, ErrorV>
    decreases rows.len() - i,
{
    if i < 0 || i >= rows.len() {
        Ok(Seq::empty())
    } else {
        match all_with_rows(rows[i], def, before, after) {
            Err(e) => Err(e),
            Ok(x) => {
                match rows_with_rows(rows, def, before, after, i + 1) {
                    Err(e) => Err(e),
                    Ok(rest) => {
                        Ok(seq![x] + rest)
                    },
                }
            },
        }
    }
}

/// Assignments from `i` on.
pub open spec fn sets_with_rows(sets: Seq<(Seq<char>, ExprV)>, def: TableDefV, before: Option<Seq<ValueV>>, after: Option<Seq<ValueV>>, i: int) -> Result<Seq<(Seq<char>, ExprV)>, ErrorV>
    decreases sets.len() - i,
{
    if i < 0 || i >= sets.len() {
        Ok(Seq::empty())
    } else {
        match with_rows(sets[i].1, def, before, after) {
            Err(e) => Err(e),
            Ok(x) => {
                match sets_with_rows(sets, def, before, after, i + 1) {
                    Err(e) => Err(e),
                    Ok(rest) => {
                        Ok(seq![(sets[i].0, x)] + rest)
                    },
                }
            },
        }
    }
}

pub open spec fn opt_with_rows(e: Option<ExprV>, def: TableDefV, before: Option<Seq<ValueV>>, after: Option<Seq<ValueV>>) -> Result<Option<ExprV>, ErrorV> {
    match e {
        None => Ok(None),
        Some(x) => {
            match with_rows(x, def, before, after) {
                Err(e) => Err(e),
                Ok(y) => {
                    Ok(Some(y))
                },
            }
        },
    }
}

/// The statement of a trigger with the values of the rows that it names.
pub open spec fn stmt_with_rows(stmt: StmtV, def: TableDefV, before: Option<Seq<ValueV>>, after: Option<Seq<ValueV>>) -> Result<StmtV, ErrorV> {
    match stmt {
        StmtV::Insert { table, columns, source, on_conflict, returning } => match source {
            InsertSourceV::Values(rows) => {
                match rows_with_rows(rows, def, before, after, 0) {
                    Err(e) => Err(e),
                    Ok(new_rows) => {
                        Ok(StmtV::Insert { table, columns, source: InsertSourceV::Values(new_rows), on_conflict, returning })
                    },
                }
            },
            InsertSourceV::Select(_) => Ok(stmt),
        },
        StmtV::Update { table, sets, where_clause, returning } => {
            match sets_with_rows(sets, def, before, after, 0) {
                Err(e) => Err(e),
                Ok(new_sets) => {
                    match opt_with_rows(where_clause, def, before, after) {
                        Err(e) => Err(e),
                        Ok(cond) => {
                            Ok(StmtV::Update { table, sets: new_sets, where_clause: cond, returning })
                        },
                    }
                },
            }
        },
        StmtV::Delete { table, where_clause, returning } => {
            match opt_with_rows(where_clause, def, before, after) {
                Err(e) => Err(e),
                Ok(cond) => {
                    Ok(StmtV::Delete { table, where_clause: cond, returning })
                },
            }
        },
        _ => Ok(stmt),
    }
}

fn subst_rows(rows: &Vec<Vec<Expr>>, def: &TableDef, before: Option<&Vec<Value>>, after: Option<&Vec<Value>>) -> (r: Result<Vec<Vec<Expr>>, Error>)
    requires
        rows_of(def@, before, after),
    ensures
        (match rows_with_rows(exprss_v(rows@), def@, opt_row(before), opt_row(after), 0) {
                Ok(es) => r is Ok && exprss_v(r->Ok_0@) == es,
                Err(e) => r is Err && r->Err_0@ == e,
        }),
{
    let n: usize = rows.len();
    let ghost all = exprss_v(rows@);
    let ghost b = opt_row(before);
    let ghost a = opt_row(after);
    let ghost whole = rows_with_rows(all, def@, b, a, 0);
    let mut out: Vec<Vec<Expr>> = Vec::new();
    assert(exprss_v(out@) =~= Seq::empty());
    assert(whole is Ok ==> Seq::empty() + whole->Ok_0 =~= whole->Ok_0);
    for i in 0..n
        invariant
            n == rows@.len(),
            all == exprss_v(rows@),
            b == opt_row(before),
            a == opt_row(after),
            rows_of(def@, before, after),
            whole == rows_with_rows(all, def@, b, a, 0),
            (match rows_with_rows(all, def@, b, a, i as int) {
                    Ok(rest) => whole == Ok::<_, ErrorV>(exprss_v(out@) + rest),
                    Err(e) => whole == Err::<Seq<Seq<ExprV>>, ErrorV>(e),
            }),
    {
        assert(all[i as int] == exprs_v(rows@[i as int]@));
        let ghost start = exprss_v(out@);
        let ps = refs_of(&rows[i]);
        let p = subst_refs(&ps, def, before, after)?;
        let ghost pv = exprs_v(p@);
        out.push(p);
        assert(exprss_v(out@) =~= start.push(pv));
        proof {
            match rows_with_rows(all, def@, b, a, i + 1) {
                Ok(rest) => {
                    assert(start + (seq![pv] + rest) =~= exprss_v(out@) + rest);
                },
                Err(_) => {},
            }
        }
    }
    assert(exprss_v(out@) + Seq::<Seq<ExprV>>::empty() =~= exprss_v(out@));
    Ok(out)
}

fn subst_sets(sets: &Vec<(String, Expr)>, def: &TableDef, before: Option<&Vec<Value>>, after: Option<&Vec<Value>>) -> (r: Result<Vec<(String, Expr)>, Error>)
    requires
        rows_of(def@, before, after),
    ensures
        (match sets_with_rows(string_expr_pairs_v(sets@), def@, opt_row(before), opt_row(after), 0) {
                Ok(es) => r is Ok && string_expr_pairs_v(r->Ok_0@) == es,
                Err(e) => r is Err && r->Err_0@ == e,
        }),
{
    let n: usize = sets.len();
    let ghost all = string_expr_pairs_v(sets@);
    let ghost b = opt_row(before);
    let ghost a = opt_row(after);
    let ghost whole = sets_with_rows(all, def@, b, a, 0);
    let mut out: Vec<(String, Expr)> = Vec::new();
    assert(string_expr_pairs_v(out@) =~= Seq::empty());
    assert(whole is Ok ==> Seq::empty() + whole->Ok_0 =~= whole->Ok_0);
    for i in 0..n
        invariant
            n == sets@.len(),
            all == string_expr_pairs_v(sets@),
            b == opt_row(before),
            a == opt_row(after),
            rows_of(def@, before, after),
            whole == sets_with_rows(all, def@, b, a, 0),
            (match sets_with_rows(all, def@, b, a, i as int) {
                    Ok(rest) => whole == Ok::<_, ErrorV>(string_expr_pairs_v(out@) + rest),
                    Err(e) => whole == Err::<Seq<(Seq<char>, ExprV)>, ErrorV>(e),
            }),
    {
        assert(all[i as int] == (sets@[i as int].0@, sets@[i as int].1@));
        let ghost start = string_expr_pairs_v(out@);
        let p = subst_expr(&sets[i].1, def, before, after)?;
        let ghost pv = (sets@[i as int].0@, p@);
        out.push((sets[i].0.clone(), p));
        assert(string_expr_pairs_v(out@) =~= start.push(pv));
        proof {
            match sets_with_rows(all, def@, b, a, i + 1) {
                Ok(rest) => {
                    assert(start + (seq![pv] + rest) =~= string_expr_pairs_v(out@) + rest);
                },
                Err(_) => {},
            }
        }
    }
    assert(string_expr_pairs_v(out@) + Seq::<(Seq<char>, ExprV)>::empty() =~= string_expr_pairs_v(out@));
    Ok(out)
}

fn subst_opt(e: &Option<Expr>, def: &TableDef, before: Option<&Vec<Value>>, after: Option<&Vec<Value>>) -> (r: Result<Option<Expr>, Error>)
    requires
        rows_of(def@, before, after),
    ensures
        (match opt_with_rows(opt_v(*e), def@, opt_row(before), opt_row(after)) {
                Ok(x) => r is Ok && opt_v(r->Ok_0) == x,
                Err(e) => r is Err && r->Err_0@ == e,
        }),
{
    match e {
        None => Ok(None),
        Some(x) => {
            let y = subst_expr(x, def, before, after)?;
            Ok(Some(y))
        },
    }
}

pub open spec fn opt_v(e: Option<Expr>) -> Option<ExprV> {
    match e {
        Some(x) => Some(x@),
        None => None,
    }
}

fn clone_items(items: &Option<Vec<SelectItem>>) -> (r: Option<Vec<SelectItem>>)
    ensures
        (match *items {
                Some(v) => r is Some && select_items_v(r->0@) == select_items_v(v@),
                None => r is None,
        }),
{
    match items {
        Some(v) => Some(clone_select_items(v)),
        None => None,
    }
}

#[verifier::spinoff_prover]
pub fn subst_stmt(stmt: &Stmt, def: &TableDef, before: Option<&Vec<Value>>, after: Option<&Vec<Value>>) -> (r: Result<Stmt, Error>)
    requires
        rows_of(def@, before, after),
    ensures
        gives(r, stmt_with_rows(stmt@, def@, opt_row(before), opt_row(after))),
{
    match stmt {
        Stmt::Insert { table, columns, source, on_conflict, returning } => match source {
            InsertSource::Values(rows) => {
                let new_rows = subst_rows(rows, def, before, after)?;
                let cols: Option<Vec<String>> = match columns {
                    Some(c) => Some(clone_strings(c)),
                    None => None,
                };
                let oc = match on_conflict {
                    Some(c) => Some(clone_on_conflict(c)),
                    None => None,
                };
                Ok(Stmt::Insert { table: table.clone(), columns: cols, source: InsertSource::Values(new_rows), on_conflict: oc, returning: clone_items(returning) })
            },
            InsertSource::Select(_) => Ok(clone_stmt(stmt)),
        },
        Stmt::Update { table, sets, where_clause, returning } => {
            let new_sets = subst_sets(sets, def, before, after)?;
            let cond = subst_opt(where_clause, def, before, after)?;
            Ok(Stmt::Update { table: table.clone(), sets: new_sets, where_clause: cond, returning: clone_items(returning) })
        },
        Stmt::Delete { table, where_clause, returning } => {
            let cond = subst_opt(where_clause, def, before, after)?;
            Ok(Stmt::Delete { table: table.clone(), where_clause: cond, returning: clone_items(returning) })
        },
        _ => Ok(clone_stmt(stmt)),
    }
}

// --- triggers ---

pub open spec fn triggers_v(s: Seq<TriggerDef>) -> Seq<TriggerDefV> {
    Seq::new(s.len(), |i: int| s[i]@)
}

/// The triggers from `i` on that run for each row, or once for the statement.
pub open spec fn triggers_for_each(ts: Seq<TriggerDefV>, kind: TriggerForEach, i: int) -> Seq<TriggerDefV>
    decreases ts.len() - i,
{
    if i < 0 || i >= ts.len() {
        Seq::empty()
    } else if ts[i].for_each == kind {
        seq![ts[i]] + triggers_for_each(ts, kind, i + 1)
    } else {
        triggers_for_each(ts, kind, i + 1)
    }
}

/// The triggers that run for each row, and those that run once for the statement.
pub fn split_for_each(triggers: Vec<TriggerDef>) -> (r: (Vec<TriggerDef>, Vec<TriggerDef>))
    ensures
        triggers_v(r.0@) == triggers_for_each(triggers_v(triggers@), TriggerForEach::Row, 0),
        triggers_v(r.1@) == triggers_for_each(triggers_v(triggers@), TriggerForEach::Statement, 0),
{
    let n: usize = triggers.len();
    let ghost ts = triggers_v(triggers@);
    let ghost all_rows = triggers_for_each(ts, TriggerForEach::Row, 0);
    let ghost all_stmts = triggers_for_each(ts, TriggerForEach::Statement, 0);
    let mut rows: Vec<TriggerDef> = Vec::new();
    let mut stmts: Vec<TriggerDef> = Vec::new();
    assert(triggers_v(rows@) + all_rows =~= all_rows);
    assert(triggers_v(stmts@) + all_stmts =~= all_stmts);
    for i in 0..n
        invariant
            n == triggers@.len(),
            ts == triggers_v(triggers@),
            all_rows == triggers_v(rows@) + triggers_for_each(ts, TriggerForEach::Row, i as int),
            all_stmts == triggers_v(stmts@) + triggers_for_each(ts, TriggerForEach::Statement, i as int),
    {
        assert(ts[i as int] == triggers@[i as int]@);
        let ghost r0 = triggers_v(rows@);
        let ghost s0 = triggers_v(stmts@);
        let t = crate::catalog::clone_trigger_def(&triggers[i]);
        let ghost tv = t@;
        if triggers[i].for_each == TriggerForEach::Row {
            rows.push(t);
            assert(triggers_v(rows@) =~= r0.push(tv));
            assert(r0 + (seq![tv] + triggers_for_each(ts, TriggerForEach::Row, i + 1)) =~= triggers_v(rows@) + triggers_for_each(ts, TriggerForEach::Row, i + 1));
        } else {
            stmts.push(t);
            assert(triggers_v(stmts@) =~= s0.push(tv));
            assert(s0 + (seq![tv] + triggers_for_each(ts, TriggerForEach::Statement, i + 1)) =~= triggers_v(stmts@) + triggers_for_each(ts, TriggerForEach::Statement, i + 1));
        }
    }
    assert(triggers_v(rows@) + Seq::<TriggerDefV>::empty() =~= triggers_v(rows@));
    assert(triggers_v(stmts@) + Seq::<TriggerDefV>::empty() =~= triggers_v(stmts@));
    (rows, stmts)
}

/// The statements of a trigger change rows.
pub open spec fn only_changes(stmts: Seq<StmtV>) -> bool {
    forall|i: int| 0 <= i < stmts.len() ==> changes_rows(#[trigger] stmts[i])
}

pub open spec fn changes_rows(s: StmtV) -> bool {
    s is Insert || s is Update || s is Delete
}

pub fn all_change(stmts: &Vec<Stmt>) -> (r: bool)
    ensures
        r == only_changes(crate::sql::parser::stmts_v(stmts@)),
{
    let n: usize = stmts.len();
    let ghost ss = crate::sql::parser::stmts_v(stmts@);
    for i in 0..n
        invariant
            n == stmts@.len(),
            ss == crate::sql::parser::stmts_v(stmts@),
            forall|k: int| 0 <= k < i ==> changes_rows(#[trigger] ss[k]),
    {
        assert(ss[i as int] == stmts@[i as int]@);
        match &stmts[i] {
            Stmt::Insert { .. } => {},
            Stmt::Update { .. } => {},
            Stmt::Delete { .. } => {},
            _ => {
                assert(!changes_rows(ss[i as int]));
                return false;
            },
        }
    }
    true
}

// --- tables from queries and from their declaration ---

/// Column `c` has a value of a kind.
pub open spec fn any_integer(rows: Seq<Seq<ValueV>>, c: int) -> bool {
    exists|i: int| 0 <= i < rows.len() && (#[trigger] rows[i])[c] is Integer
}

pub open spec fn any_real(rows: Seq<Seq<ValueV>>, c: int) -> bool {
    exists|i: int| 0 <= i < rows.len() && (#[trigger] rows[i])[c] is Real
}

pub open spec fn any_text(rows: Seq<Seq<ValueV>>, c: int) -> bool {
    exists|i: int| 0 <= i < rows.len() && (#[trigger] rows[i])[c] is Text
}

pub open spec fn any_bool(rows: Seq<Seq<ValueV>>, c: int) -> bool {
    exists|i: int| 0 <= i < rows.len() && (#[trigger] rows[i])[c] is Bool
}

pub open spec fn any_blob(rows: Seq<Seq<ValueV>>, c: int) -> bool {
    exists|i: int| 0 <= i < rows.len() && (#[trigger] rows[i])[c] is Blob
}

pub open spec fn one(b: bool) -> int {
    if b {
        1
    } else {
        0
    }
}

/// The type that takes all values of column `c`; NULL is of every type.
pub open spec fn column_type(rows: Seq<Seq<ValueV>>, c: int) -> Result<ColType, ErrorV> {
    let numeric = any_integer(rows, c) || any_real(rows, c);
    if one(numeric) + one(any_text(rows, c)) + one(any_bool(rows, c)) + one(any_blob(rows, c)) > 1 {
        Err(sql_error("CREATE TABLE AS SELECT: una columna mezcla tipos incompatibles"@))
    } else if any_blob(rows, c) {
        Ok(ColType::Blob)
    } else if any_bool(rows, c) {
        Ok(ColType::Boolean)
    } else if any_text(rows, c) {
        Ok(ColType::Text)
    } else if any_real(rows, c) {
        Ok(ColType::Real)
    } else if any_integer(rows, c) {
        Ok(ColType::Integer)
    } else {
        Ok(ColType::Text)
    }
}

#[verifier::spinoff_prover]
pub fn infer_coltype(rows: &Vec<Vec<Value>>, c: usize) -> (r: Result<ColType, Error>)
    requires
        forall|i: int| 0 <= i < rows@.len() ==> c < (#[trigger] rows@[i])@.len(),
    ensures
        (match column_type(rows_view(rows@), c as int) {
                Ok(t) => r == Ok::<ColType, Error>(t),
                Err(e) => r is Err && r->Err_0@ == e,
        }),
{
    let mut integer: bool = false;
    let mut is_real: bool = false;
    let mut text: bool = false;
    let mut boolean: bool = false;
    let mut blob: bool = false;
    let n: usize = rows.len();
    let ghost rv = rows_view(rows@);
    for i in 0..n
        invariant
            n == rows@.len(),
            rv == rows_view(rows@),
            forall|i: int| 0 <= i < rows@.len() ==> c < (#[trigger] rows@[i])@.len(),
            integer == (exists|k: int| 0 <= k < i && (#[trigger] rv[k])[c as int] is Integer),
            is_real == (exists|k: int| 0 <= k < i && (#[trigger] rv[k])[c as int] is Real),
            text == (exists|k: int| 0 <= k < i && (#[trigger] rv[k])[c as int] is Text),
            boolean == (exists|k: int| 0 <= k < i && (#[trigger] rv[k])[c as int] is Bool),
            blob == (exists|k: int| 0 <= k < i && (#[trigger] rv[k])[c as int] is Blob),
    {
        assert(rv[i as int] == row_view(rows@[i as int]@));
        assert(rv[i as int][c as int] == rows@[i as int]@[c as int]@);
        match &rows[i][c] {
            Value::Null => {},
            Value::Integer(_) => {
                integer = true;
            },
            Value::Real(_) => {
                is_real = true;
            },
            Value::Text(_) => {
                text = true;
            },
            Value::Bool(_) => {
                boolean = true;
            },
            Value::Blob(_) => {
                blob = true;
            },
        }
    }
    let numeric: bool = integer || is_real;
    let mut families: u8 = 0;
    if numeric {
        families = families + 1;
    }
    if text {
        families = families + 1;
    }
    if boolean {
        families = families + 1;
    }
    if blob {
        families = families + 1;
    }
    if families > 1 {
        return Err(sql_lit("CREATE TABLE AS SELECT: una columna mezcla tipos incompatibles"));
    }
    if blob {
        Ok(ColType::Blob)
    } else if boolean {
        Ok(ColType::Boolean)
    } else if text {
        Ok(ColType::Text)
    } else if is_real {
        Ok(ColType::Real)
    } else if integer {
        Ok(ColType::Integer)
    } else {
        Ok(ColType::Text)
    }
}

pub open spec fn plain_column(name: Seq<char>, col_type: ColType) -> ColumnSpecV {
    ColumnSpecV { name, col_type, not_null: false, primary_key: false, default: None, references: None, unique: false, check: None }
}

/// The columns from `i` on of a table for the result of a query.
pub open spec fn result_columns(out: SelectOutV, i: int) -> Result<Seq<ColumnSpecV>, ErrorV>
    decreases out.columns.len() - i,
{
    if i < 0 || i >= out.columns.len() {
        Ok(Seq::empty())
    } else {
        match column_type(out.rows, i) {
            Err(e) => Err(e),
            Ok(t) => {
                match result_columns(out, i + 1) {
                    Err(e) => Err(e),
                    Ok(rest) => {
                        Ok(seq![plain_column(out.columns[i], t)] + rest)
                    },
                }
            },
        }
    }
}

/// The table for the result of a query.
pub open spec fn result_spec(name: Seq<char>, out: SelectOutV) -> Result<TableSpecV, ErrorV> {
    if out.columns.len() == 0 {
        Err(sql_error("CREATE TABLE AS SELECT necesita al menos una columna"@))
    } else {
        match result_columns(out, 0) {
            Err(e) => Err(e),
            Ok(columns) => {
                Ok(TableSpecV { name, columns, foreign_keys: Seq::empty(), uniques: Seq::empty(), checks: Seq::empty() })
            },
        }
    }
}

pub fn query_table(name: &str, out: &SelectOut) -> (r: Result<TableSpec, Error>)
    requires
        fits(out@),
    ensures
        gives(r, result_spec(name@, out@)),
{
    assert(out@.columns.len() == out.columns@.len());
    if out.columns.len() == 0 {
        return Err(sql_lit("CREATE TABLE AS SELECT necesita al menos una columna"));
    }
    let n: usize = out.columns.len();
    let ghost ov = out@;
    let ghost whole = result_columns(ov, 0);
    let mut columns: Vec<ColumnSpec> = Vec::new();
    assert(column_specs_v(columns@) =~= Seq::empty());
    assert(whole is Ok ==> Seq::empty() + whole->Ok_0 =~= whole->Ok_0);
    for i in 0..n
        invariant
            n == out.columns@.len(),
            ov == out@,
            n > 0,
            ov.columns.len() == n,
            fits(ov),
            whole == result_columns(ov, 0),
            (match result_columns(ov, i as int) {
                    Ok(rest) => whole == Ok::<_, ErrorV>(column_specs_v(columns@) + rest),
                    Err(e) => whole == Err::<Seq<ColumnSpecV>, ErrorV>(e),
            }),
    {
        let ghost start = column_specs_v(columns@);
        assert forall|k: int| 0 <= k < out.rows@.len() implies i < (#[trigger] out.rows@[k])@.len() by {
            assert(ov.rows[k] == row_view(out.rows@[k]@));
        }
        let t = infer_coltype(&out.rows, i)?;
        let c = ColumnSpec { name: out.columns[i].clone(), col_type: t, not_null: false, primary_key: false, default: None, references: None, unique: false, check: None };
        let ghost cv = c@;
        assert(cv == plain_column(ov.columns[i as int], t));
        columns.push(c);
        assert(column_specs_v(columns@) =~= start.push(cv));
        proof {
            match result_columns(ov, i + 1) {
                Ok(rest) => {
                    assert(start + (seq![cv] + rest) =~= column_specs_v(columns@) + rest);
                },
                Err(_) => {},
            }
        }
    }
    assert(column_specs_v(columns@) + Seq::<ColumnSpecV>::empty() =~= column_specs_v(columns@));
    let r = TableSpec { name: name.to_owned(), columns, foreign_keys: Vec::new(), uniques: Vec::new(), checks: Vec::new() };
    assert(r@.foreign_keys =~= Seq::empty());
    assert(r@.uniques =~= Seq::empty());
    assert(r@.checks =~= Seq::empty());
    Ok(r)
}

/// The default value that a column declares; NULL is none.
pub open spec fn default_of(env: EnvV, default: Option<ExprV>, params: Seq<ValueV>) -> Result<Option<ValueV>, ErrorV> {
    match default {
        None => Ok(None),
        Some(e) => if mentions_param(e) {
            Err(sql_error("DEFAULT no admite parámetros"@))
        } else {
            match value_of(env, e, None, params) {
                Err(e) => Err(e),
                Ok(v) => {
                    if v is Null {
                        Ok(None)
                    } else {
                        Ok(Some(v))
                    }
                },
            }
        },
    }
}

pub fn default_value(env: &Env, default: &Option<Expr>, params: &Vec<Value>) -> (r: Result<Option<Value>, Error>)
    ensures
        (match default_of(env@, opt_v(*default), row_view(params@)) {
                Ok(Some(v)) => r is Ok && r->Ok_0 is Some && (r->Ok_0)->0@ == v,
                Ok(None) => r is Ok && r->Ok_0 is None,
                Err(e) => r is Err && r->Err_0@ == e,
        }),
{
    match default {
        None => Ok(None),
        Some(e) => {
            if e.contains_param() {
                return Err(sql_lit("DEFAULT no admite parámetros"));
            }
            let v = eval_const(env, e, params)?;
            if let Value::Null = v {
                Ok(None)
            } else {
                Ok(Some(v))
            }
        },
    }
}

pub open spec fn declared_column(c: ColumnAstV, default: Option<ValueV>) -> ColumnSpecV {
    ColumnSpecV { name: c.name, col_type: c.col_type, not_null: c.not_null, primary_key: c.primary_key, default, references: c.references, unique: c.unique, check: c.check }
}

/// The columns from `i` on that a declaration makes.
pub open spec fn declared_columns(env: EnvV, cs: Seq<ColumnAstV>, i: int) -> Result<Seq<ColumnSpecV>, ErrorV>
    decreases cs.len() - i,
{
    if i < 0 || i >= cs.len() {
        Ok(Seq::empty())
    } else {
        match default_of(branch(env, i), cs[i].default, Seq::empty()) {
            Err(e) => Err(e),
            Ok(d) => {
                match declared_columns(env, cs, i + 1) {
                    Err(e) => Err(e),
                    Ok(rest) => {
                        Ok(seq![declared_column(cs[i], d)] + rest)
                    },
                }
            },
        }
    }
}

fn spec_of_column(c: &ColumnAst, default: Option<Value>) -> (r: ColumnSpec)
    ensures
        r@ == declared_column(c@, (match default {
                    Some(v) => Some(v@),
                    None => None,
        })),
{
    let copy = clone_column_ast(c);
    ColumnSpec { name: copy.name, col_type: copy.col_type, not_null: copy.not_null, primary_key: copy.primary_key, default, references: copy.references, unique: copy.unique, check: copy.check }
}

pub open spec fn declared_table(env: EnvV, name: Seq<char>, columns: Seq<ColumnAstV>, foreign_keys: Seq<crate::catalog::ForeignKeySpecV>, uniques: Seq<Seq<Seq<char>>>, checks: Seq<Seq<char>>) -> Result<TableSpecV, ErrorV> {
    match declared_columns(env, columns, 0) {
        Err(e) => Err(e),
        Ok(cs) => {
            Ok(TableSpecV { name, columns: cs, foreign_keys, uniques, checks })
        },
    }
}

pub fn table_spec(env: &Env, name: &str, columns: &Vec<ColumnAst>, foreign_keys: &Vec<crate::catalog::ForeignKeySpec>, uniques: &Vec<Vec<String>>, checks: &Vec<String>) -> (r: Result<TableSpec, Error>)
    ensures
        gives(r, declared_table(env@, name@, column_asts_v(columns@), foreign_key_specs_v(foreign_keys@), stringss_v(uniques@), strings_v(checks@))),
{
    let n: usize = columns.len();
    let ghost cs = column_asts_v(columns@);
    let ghost whole = declared_columns(env@, cs, 0);
    let none: Vec<Value> = Vec::new();
    assert(row_view(none@) =~= Seq::empty());
    let mut out: Vec<ColumnSpec> = Vec::new();
    assert(column_specs_v(out@) =~= Seq::empty());
    assert(whole is Ok ==> Seq::empty() + whole->Ok_0 =~= whole->Ok_0);
    for i in 0..n
        invariant
            n == columns@.len(),
            cs == column_asts_v(columns@),
            row_view(none@) == Seq::<ValueV>::empty(),
            whole == declared_columns(env@, cs, 0),
            (match declared_columns(env@, cs, i as int) {
                    Ok(rest) => whole == Ok::<_, ErrorV>(column_specs_v(out@) + rest),
                    Err(e) => whole == Err::<Seq<ColumnSpecV>, ErrorV>(e),
            }),
    {
        assert(cs[i as int] == columns@[i as int]@);
        assert(cs[i as int].default == opt_v(columns@[i as int].default));
        let ghost start = column_specs_v(out@);
        let d = default_value(&env.branch(i), &columns[i].default, &none)?;
        let c = spec_of_column(&columns[i], d);
        let ghost cv = c@;
        out.push(c);
        assert(column_specs_v(out@) =~= start.push(cv));
        proof {
            match declared_columns(env@, cs, i + 1) {
                Ok(rest) => {
                    assert(start + (seq![cv] + rest) =~= column_specs_v(out@) + rest);
                },
                Err(_) => {},
            }
        }
    }
    assert(column_specs_v(out@) + Seq::<ColumnSpecV>::empty() =~= column_specs_v(out@));
    Ok(TableSpec { name: name.to_owned(), columns: out, foreign_keys: clone_foreign_key_specs(foreign_keys), uniques: clone_stringss(uniques), checks: clone_strings(checks) })
}

// --- columns by name ---

/// The place of a column that is not dropped.
pub open spec fn place_of_column(def: TableDefV, name: Seq<char>) -> Result<int, ErrorV> {
    match column_named(def.columns, name, 0) {
        Some(i) => Ok(i),
        None => Err(sql_error("columna desconocida: "@ + name)),
    }
}

pub fn col_index(def: &TableDef, name: &str) -> (r: Result<usize, Error>)
    ensures
        (match place_of_column(def@, name@) {
                Ok(i) => r is Ok && r->Ok_0 == i && i < def@.columns.len(),
                Err(e) => r is Err && r->Err_0@ == e,
        }),
{
    match find_column(&def.columns, name) {
        Some(i) => Ok(i),
        None => Err(sql_err(cat("columna desconocida: ", name))),
    }
}

/// The places of the columns from `i` on, dropped ones too.
pub open spec fn places_of(def: TableDefV, names: Seq<Seq<char>>, i: int) -> Result<Seq<int>, ErrorV>
    decreases names.len() - i,
{
    if i < 0 || i >= names.len() {
        Ok(Seq::empty())
    } else {
        match place_named(def.columns, names[i], 0) {
            None => Err(sql_error("columna desconocida: "@ + names[i])),
            Some(p) => {
                match places_of(def, names, i + 1) {
                    Err(e) => Err(e),
                    Ok(rest) => {
                        Ok(seq![p] + rest)
                    },
                }
            },
        }
    }
}

pub fn column_places(def: &TableDef, names: &Vec<String>) -> (r: Result<Vec<usize>, Error>)
    ensures
        (match places_of(def@, strings_v(names@), 0) {
                Ok(ps) => r is Ok && ints(r->Ok_0@) == ps,
                Err(e) => r is Err && r->Err_0@ == e,
        }),
{
    let n: usize = names.len();
    let ghost ns = strings_v(names@);
    let ghost whole = places_of(def@, ns, 0);
    let mut out: Vec<usize> = Vec::new();
    assert(ints(out@) =~= Seq::empty());
    assert(whole is Ok ==> Seq::empty() + whole->Ok_0 =~= whole->Ok_0);
    for i in 0..n
        invariant
            n == names@.len(),
            ns == strings_v(names@),
            whole == places_of(def@, ns, 0),
            (match places_of(def@, ns, i as int) {
                    Ok(rest) => whole == Ok::<_, ErrorV>(ints(out@) + rest),
                    Err(e) => whole == Err::<Seq<int>, ErrorV>(e),
            }),
    {
        assert(ns[i as int] == names@[i as int]@);
        let ghost start = ints(out@);
        match find_place(&def.columns, names[i].as_str()) {
            None => {
                return Err(sql_err(cat("columna desconocida: ", names[i].as_str())));
            },
            Some(p) => {
                out.push(p);
                assert(ints(out@) =~= start.push(p as int));
                proof {
                    match places_of(def@, ns, i + 1) {
                        Ok(rest) => {
                            assert(start + (seq![p as int] + rest) =~= ints(out@) + rest);
                        },
                        Err(_) => {},
                    }
                }
            },
        }
    }
    assert(ints(out@) + Seq::<int>::empty() =~= ints(out@));
    Ok(out)
}

// --- the values of a new row ---

/// The columns that are shown, from the `j`-th in that order on.
pub open spec fn shown(def: TableDefV, j: int) -> Seq<int>
    decreases def.logical_order.len() - j,
{
    if j < 0 || j >= def.logical_order.len() {
        Seq::empty()
    } else if def.columns[def.logical_order[j] as int].dropped {
        shown(def, j + 1)
    } else {
        seq![def.logical_order[j] as int] + shown(def, j + 1)
    }
}

fn shown_places(def: &TableDef) -> (r: Vec<usize>)
    requires
        def_ok(def@),
    ensures
        ints(r@) == shown(def@, 0),
        in_range(r@, def@.columns.len() as int),
{
    let n: usize = def.logical_order.len();
    let ghost whole = shown(def@, 0);
    let mut out: Vec<usize> = Vec::new();
    assert(ints(out@) + whole =~= whole);
    for j in 0..n
        invariant
            n == def.logical_order@.len(),
            def_ok(def@),
            whole == ints(out@) + shown(def@, j as int),
            in_range(out@, def@.columns.len() as int),
    {
        assert(def@.logical_order[j as int] == def.logical_order@[j as int]);
        let p: usize = def.logical_order[j];
        assert(def@.columns[p as int] == def.columns@[p as int]@);
        if !def.columns[p].dropped {
            let ghost start = ints(out@);
            let ghost o0 = out@;
            out.push(p);
            assert(ints(out@) =~= start.push(p as int));
            assert(start + (seq![p as int] + shown(def@, j + 1)) =~= ints(out@) + shown(def@, j + 1));
            assert forall|k: int| 0 <= k < out@.len() implies 0 <= (#[trigger] out@[k]) < def@.columns.len() by {
                if k < o0.len() {
                    assert(out@[k] == o0[k]);
                }
            }
        }
    }
    assert(ints(out@) + Seq::<int>::empty() =~= ints(out@));
    out
}

/// The row with the values of the expressions from `i` on at their places.
pub open spec fn placed(env: EnvV, row: Seq<ValueV>, at: Seq<int>, es: Seq<ExprV>, params: Seq<ValueV>, i: int) -> Result<Seq<ValueV>, ErrorV>
    decreases es.len() - i,
{
    if i < 0 || i >= es.len() {
        Ok(row)
    } else {
        match value_of(branch(env, i), es[i], None, params) {
            Err(e) => Err(e),
            Ok(v) => {
                placed(env, row.update(at[i], v), at, es, params, i + 1)
            },
        }
    }
}

pub open spec fn each_place(n: nat) -> Seq<int> {
    Seq::new(n, |i: int| i)
}

pub open spec fn all_null(n: nat) -> Seq<ValueV> {
    Seq::new(n, |i: int| ValueV::Null)
}

/// A column takes its default where it is not named; the identifier is left open.
pub open spec fn defaults(def: TableDefV) -> Seq<ValueV> {
    Seq::new(def.columns.len(), |i: int| if def.rowid_alias is Some && def.rowid_alias->0 == i {
            ValueV::Null
        } else {
            match def.columns[i].default {
                Some(v) => v,
                None => ValueV::Null,
            }
    })
}

/// Another column of the list has the name of the `i`-th.
pub open spec fn repeated(names: Seq<Seq<char>>, i: int) -> bool {
    exists|k: int| 0 <= k < names.len() && k != i && #[trigger] names[k] == names[i]
}

/// The row with the values of the named columns from `i` on.
pub open spec fn named_values(env: EnvV, def: TableDefV, names: Seq<Seq<char>>, es: Seq<ExprV>, params: Seq<ValueV>, row: Seq<ValueV>, i: int) -> Result<Seq<ValueV>, ErrorV>
    decreases es.len() - i,
{
    if i < 0 || i >= es.len() {
        Ok(row)
    } else {
        match place_of_column(def, names[i]) {
            Err(e) => Err(e),
            Ok(p) => {
                if repeated(names, i) {
                    Err(sql_error("columna repetida en INSERT: "@ + names[i]))
                } else {
                    match value_of(branch(env, i), es[i], None, params) {
                        Err(e) => Err(e),
                        Ok(v) => {
                            named_values(env, def, names, es, params, row.update(p, v), i + 1)
                        },
                    }
                }
            },
        }
    }
}

/// The error of a list of values that is too short or too long.
pub open spec fn value_count(what: Seq<char>, columns: nat, values: nat) -> ErrorV {
    sql_error(what + nat_text(columns) + (" columnas pero se dieron "@ + nat_text(values) + " valores"@))
}

fn wrong_count(what: &str, columns: usize, values: usize) -> (r: Error)
    ensures
        r@ == value_count(what@, columns as nat, values as nat),
{
    let a = u64_text(columns as u64);
    let b = u64_text(values as u64);
    let head = cat(what, a.as_str());
    let tail = cat3(" columnas pero se dieron ", b.as_str(), " valores");
    sql_err(cat(head.as_str(), tail.as_str()))
}

/// The row that an INSERT proposes. Without a list of columns there is a value for each
/// column that is shown.
pub open spec fn proposed(env: EnvV, def: TableDefV, columns: Option<Seq<Seq<char>>>, es: Seq<ExprV>, params: Seq<ValueV>) -> Result<Seq<ValueV>, ErrorV> {
    match columns {
        None => if es.len() != shown(def, 0).len() {
            Err(value_count("la tabla tiene "@, shown(def, 0).len(), es.len()))
        } else {
            placed(env, all_null(def.columns.len()), shown(def, 0), es, params, 0)
        },
        Some(names) => if names.len() != es.len() {
            Err(sql_error("número distinto de columnas y de valores"@))
        } else {
            named_values(env, def, names, es, params, defaults(def), 0)
        },
    }
}

fn nulls_row(n: usize) -> (r: Vec<Value>)
    ensures
        row_view(r@) == all_null(n as nat),
        r@.len() == n,
{
    let mut out: Vec<Value> = Vec::new();
    for i in 0..n
        invariant
            out@.len() == i,
            forall|k: int| 0 <= k < i ==> (#[trigger] out@[k])@ == ValueV::Null,
    {
        out.push(Value::Null);
    }
    assert(row_view(out@) =~= all_null(n as nat));
    out
}

fn default_row(def: &TableDef) -> (r: Vec<Value>)
    ensures
        row_view(r@) == defaults(def@),
        r@.len() == def.columns@.len(),
{
    let n: usize = def.columns.len();
    let mut out: Vec<Value> = Vec::new();
    for i in 0..n
        invariant
            n == def.columns@.len(),
            out@.len() == i,
            forall|k: int| 0 <= k < i ==> (#[trigger] out@[k])@ == defaults(def@)[k],
    {
        assert(def@.columns[i as int] == def.columns@[i as int]@);
        let alias: bool = match def.rowid_alias {
            Some(a) => a == i,
            None => false,
        };
        if alias {
            out.push(Value::Null);
        } else {
            match &def.columns[i].default {
                Some(v) => {
                    out.push(v.clone());
                },
                None => {
                    out.push(Value::Null);
                },
            }
        }
    }
    assert(row_view(out@) =~= defaults(def@));
    out
}

fn place_values(env: &Env, row: &mut Vec<Value>, at: &Vec<usize>, es: &Vec<Expr>, params: &Vec<Value>) -> (r: Result<(), Error>)
    requires
        at@.len() == es@.len(),
        in_range(at@, old(row)@.len() as int),
    ensures
        (match placed(env@, row_view(old(row)@), ints(at@), exprs_v(es@), row_view(params@), 0) {
                Ok(vs) => r is Ok && row_view(final(row)@) == vs && final(row)@.len() == old(row)@.len(),
                Err(e) => r is Err && r->Err_0@ == e,
        }),
{
    let n: usize = es.len();
    let ghost av = ints(at@);
    let ghost ev = exprs_v(es@);
    let ghost pv = row_view(params@);
    let ghost whole = placed(env@, row_view(row@), av, ev, pv, 0);
    for i in 0..n
        invariant
            n == es@.len(),
            at@.len() == n,
            row@.len() == old(row)@.len(),
            in_range(at@, old(row)@.len() as int),
            av == ints(at@),
            ev == exprs_v(es@),
            pv == row_view(params@),
            whole == placed(env@, row_view(old(row)@), av, ev, pv, 0),
            whole == placed(env@, row_view(row@), av, ev, pv, i as int),
    {
        assert(ev[i as int] == es@[i as int]@);
        let v = eval_const(&env.branch(i), &es[i], params)?;
        let p: usize = at[i];
        let ghost start = row_view(row@);
        let ghost vv = v@;
        row.set(p, v);
        assert(row_view(row@) =~= start.update(p as int, vv));
    }
    Ok(())
}

fn name_repeated(names: &Vec<String>, i: usize) -> (r: bool)
    requires
        i < names@.len(),
    ensures
        r == repeated(strings_v(names@), i as int),
{
    let n: usize = names.len();
    let ghost ns = strings_v(names@);
    for k in 0..n
        invariant
            n == names@.len(),
            i < n,
            ns == strings_v(names@),
            forall|j: int| 0 <= j < k && j != i ==> #[trigger] ns[j] != ns[i as int],
    {
        assert(ns[k as int] == names@[k as int]@);
        assert(ns[i as int] == names@[i as int]@);
        if k != i && str_eq(names[k].as_str(), names[i].as_str()) {
            assert(ns[k as int] == ns[i as int]);
            return true;
        }
    }
    false
}

/// The row that an INSERT proposes.
#[verifier::spinoff_prover]
pub fn insert_values(env: &Env, def: &TableDef, columns: &Option<Vec<String>>, es: &Vec<Expr>, params: &Vec<Value>) -> (r: Result<Vec<Value>, Error>)
    requires
        def_ok(def@),
    ensures
        (match proposed(env@, def@, (match *columns {
                        Some(c) => Some(strings_v(c@)),
                        None => None,
                }), exprs_v(es@), row_view(params@)) {
                Ok(vs) => r is Ok && row_view(r->Ok_0@) == vs && r->Ok_0@.len() == def@.columns.len(),
                Err(e) => r is Err && r->Err_0@ == e,
        }),
{
    match columns {
        None => {
            let at = shown_places(def);
            assert(ints(at@).len() == at@.len());
            assert(exprs_v(es@).len() == es@.len());
            if es.len() != at.len() {
                return Err(wrong_count("la tabla tiene ", at.len(), es.len()));
            }
            let mut row = nulls_row(def.columns.len());
            place_values(env, &mut row, &at, es, params)?;
            Ok(row)
        },
        Some(names) => {
            assert(strings_v(names@).len() == names@.len());
            if names.len() != es.len() {
                return Err(sql_lit("número distinto de columnas y de valores"));
            }
            let mut row = default_row(def);
            let n: usize = es.len();
            let ghost ns = strings_v(names@);
            let ghost ev = exprs_v(es@);
            let ghost pv = row_view(params@);
            let ghost whole = named_values(env@, def@, ns, ev, pv, row_view(row@), 0);
            #[verifier::loop_isolation(false)]
            for i in 0..n
                invariant
                    row@.len() == def@.columns.len(),
                    whole == named_values(env@, def@, ns, ev, pv, row_view(row@), i as int),
            {
                assert(ns[i as int] == names@[i as int]@);
                assert(ev[i as int] == es@[i as int]@);
                let p: usize = col_index(def, names[i].as_str())?;
                if name_repeated(names, i) {
                    return Err(sql_err(cat("columna repetida en INSERT: ", names[i].as_str())));
                }
                let v = eval_const(&env.branch(i), &es[i], params)?;
                let ghost start = row_view(row@);
                let ghost vv = v@;
                row.set(p, v);
                assert(row_view(row@) =~= start.update(p as int, vv));
            }
            Ok(row)
        },
    }
}

/// The row of a view with the values of the named columns from `i` on.
pub open spec fn view_values(env: EnvV, def: TableDefV, names: Seq<Seq<char>>, es: Seq<ExprV>, params: Seq<ValueV>, row: Seq<ValueV>, i: int) -> Result<Seq<ValueV>, ErrorV>
    decreases es.len() - i,
{
    if i < 0 || i >= es.len() {
        Ok(row)
    } else {
        match place_named(def.columns, names[i], 0) {
            None => Err(sql_error("columna desconocida en la vista: "@ + names[i])),
            Some(p) => {
                match value_of(branch(env, i), es[i], None, params) {
                    Err(e) => Err(e),
                    Ok(v) => {
                        view_values(env, def, names, es, params, row.update(p, v), i + 1)
                    },
                }
            },
        }
    }
}

/// The row that an INSERT into a view proposes.
pub open spec fn view_proposed(env: EnvV, def: TableDefV, columns: Option<Seq<Seq<char>>>, es: Seq<ExprV>, params: Seq<ValueV>) -> Result<Seq<ValueV>, ErrorV> {
    match columns {
        Some(names) => if names.len() != es.len() {
            Err(sql_error("número distinto de columnas y de valores"@))
        } else {
            view_values(env, def, names, es, params, all_null(def.columns.len()), 0)
        },
        None => if es.len() != def.columns.len() {
            Err(value_count("la vista tiene "@, def.columns.len(), es.len()))
        } else {
            placed(env, all_null(def.columns.len()), each_place(def.columns.len()), es, params, 0)
        },
    }
}

#[verifier::spinoff_prover]
pub fn view_insert_values(env: &Env, def: &TableDef, columns: &Option<Vec<String>>, es: &Vec<Expr>, params: &Vec<Value>) -> (r: Result<Vec<Value>, Error>)
    ensures
        (match view_proposed(env@, def@, (match *columns {
                        Some(c) => Some(strings_v(c@)),
                        None => None,
                }), exprs_v(es@), row_view(params@)) {
                Ok(vs) => r is Ok && row_view(r->Ok_0@) == vs && r->Ok_0@.len() == def@.columns.len(),
                Err(e) => r is Err && r->Err_0@ == e,
        }),
{
    assert(exprs_v(es@).len() == es@.len());
    assert(def@.columns.len() == def.columns@.len());
    let mut row = nulls_row(def.columns.len());
    match columns {
        None => {
            if es.len() != def.columns.len() {
                return Err(wrong_count("la vista tiene ", def.columns.len(), es.len()));
            }
            let at = crate::exec::rows::positions_of(def.columns.len());
            assert(ints(at@) =~= each_place(def@.columns.len()));
            place_values(env, &mut row, &at, es, params)?;
            Ok(row)
        },
        Some(names) => {
            assert(strings_v(names@).len() == names@.len());
            if names.len() != es.len() {
                return Err(sql_lit("número distinto de columnas y de valores"));
            }
            let n: usize = es.len();
            let ghost ns = strings_v(names@);
            let ghost ev = exprs_v(es@);
            let ghost pv = row_view(params@);
            let ghost whole = view_values(env@, def@, ns, ev, pv, row_view(row@), 0);
            #[verifier::loop_isolation(false)]
            for i in 0..n
                invariant
                    row@.len() == def@.columns.len(),
                    whole == view_values(env@, def@, ns, ev, pv, row_view(row@), i as int),
            {
                assert(ns[i as int] == names@[i as int]@);
                assert(ev[i as int] == es@[i as int]@);
                let p: usize = match find_place(&def.columns, names[i].as_str()) {
                    Some(p) => p,
                    None => {
                        return Err(sql_err(cat("columna desconocida en la vista: ", names[i].as_str())));
                    },
                };
                let v = eval_const(&env.branch(i), &es[i], params)?;
                let ghost start = row_view(row@);
                let ghost vv = v@;
                row.set(p, v);
                assert(row_view(row@) =~= start.update(p as int, vv));
            }
            Ok(row)
        },
    }
}

} // verus!
