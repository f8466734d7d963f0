//! SELECT: common table expressions, views, derived tables, subqueries, set operators,
//! and the rows of the tables themselves.
use vstd::prelude::*;

use crate::catalog::{clone_strings, clone_table_def, TableDef, TableDefV};
#[allow(unused_imports)]
use crate::catalog::strings_v;
use crate::error::{sql_err, sql_lit, Error, ErrorV};
#[allow(unused_imports)]
use crate::error::{gives, sql_error};
use crate::exec::aggregate::{aggregate_projection, fold_aggregates};
#[allow(unused_imports)]
use crate::exec::aggregate::{aggregate_items, rows_fit, with_aggregates};
use crate::exec::check::{no_aggregates, order_key_expr, validate_columns};
#[allow(unused_imports)]
use crate::exec::check::{checked, key_expr, valid_columns, without_aggregates};
use crate::exec::eval::{eval, eval_const};
#[allow(unused_imports)]
use crate::exec::eval::value_of;
use crate::exec::joins::{conditions_of, join_rows, precompute_bm25, prefilter};
#[allow(unused_imports)]
use crate::exec::joins::{conditions, joined, kept, one_table, prefiltered, ranked_calls, with_ranks};
use crate::exec::ops::{truthy, Env, EnvV};
#[allow(unused_imports)]
use crate::exec::ops::branch;
#[allow(unused_imports)]
use crate::exec::ops::truth;
use crate::exec::output::{output_names, pick_rows, pick_values, push_values, run_grouped, run_select_no_from, run_windowed, sort_output, star_columns, SelectOut, SelectOutV};
#[allow(unused_imports)]
use crate::exec::output::{fits, grouped_output, ints, lemma_names_width, names_from, output_width, rows_at, sorted_output, star_from, star_names_from, tableless_output, values_at, windowed_output};
use crate::exec::plan::{choose_access, reach};
#[allow(unused_imports)]
use crate::exec::plan::{access, reached};
use crate::exec::rows::{contains_row, dedup_preserving, limit_offset, positions_of, sort_items};
#[allow(unused_imports)]
use crate::exec::rows::{bounds, distinct_rows, has_row, rows_equal, in_range, keys_fit, lemma_distinct_wide, limited, positions, rows_wide, sorted_items};
use crate::exec::schema::{find_column, QuerySchema};
#[allow(unused_imports)]
use crate::exec::schema::{column_named, def_ok, pushed, row_fits, row_width, SchemaV};
use crate::exec::source::{clone_entries, find_entry, synthetic_cte_def, CteEntry, CteEntryV, DataSource};
#[allow(unused_imports)]
use crate::exec::source::{entries_ok, entries_v, entry_named, entry_ok, result_table};
use crate::exec::subquery::{outer_qualifiers, rebuild_select, select_has_subquery, select_parts_of, stmt_refs_quals, subst_outer_stmt};
#[allow(unused_imports)]
use crate::exec::subquery::{any_subquery, qualifiers, select_parts, select_refers, select_with_outer, with_select_parts};
use crate::exec::window::descents_of;
#[allow(unused_imports)]
use crate::exec::window::descents;
use crate::record::{clone_row, clone_rows, Value, ValueV};
#[allow(unused_imports)]
use crate::record::{row_view, rows_view};
use crate::sql::ast::{clone_expr, clone_select, clone_table_ref, CompoundSelectV, Cte, CteV, Expr, ExprV, Join, JoinKind, JoinV, SelectItem, SelectItemV, SelectStmt, SelectStmtV, SetOp, Stmt, StmtV, TableRef, TableRefV};
#[allow(unused_imports)]
use crate::sql::ast::{compound_selects_v, ctes_v, exprs_v, select_items_v};
#[allow(unused_imports)]
use crate::sql::grammar::parsed;
use crate::sql::parser::parse;
use crate::sql::walk::{expr_has_subquery, parts_of, rebuild};
#[allow(unused_imports)]
use crate::sql::walk::{expr_size, exprs_size, lemma_exprs_size_elem, lemma_parts_size, mentions_aggregate, mentions_subquery, mentions_window, parts, qualifier_of, refs_v, with_parts};
use crate::text::{cat, cat3, str_eq, u64_text};
#[allow(unused_imports)]
use crate::text::nat_text;

verus! {

/// The most rows that a recursive common table expression may reach.
pub const MAX_ROWS: usize = 1_000_000;

/// What a query sees beside its source: named results, and whether names may be views;
/// `resolving` are the views being read, and `depth` counts the queries around this one.
pub ghost struct ScopeV {
    pub ctes: Seq<CteEntryV>,
    pub views: bool,
    pub resolving: Seq<Seq<char>>,
    pub depth: nat,
}

/// A table of a query: of the source, or with its rows.
pub ghost struct FoundV {
    pub def: TableDefV,
    pub rows: Option<Seq<Seq<ValueV>>>,
}

/// What a query gives that sees those named results, in an environment of its own.
pub type Runner = spec_fn(EnvV, Seq<CteEntryV>, SelectStmtV) -> Result<SelectOutV, ErrorV>;

/// The table of a name, read as the table of that number of a query.
pub type Finder = spec_fn(int, Seq<char>) -> Result<Option<FoundV>, ErrorV>;

// --- subqueries ---

/// The value of a scalar subquery.
pub open spec fn scalar_of(out: SelectOutV) -> Result<ValueV, ErrorV> {
    if out.columns.len() != 1 {
        Err(sql_error("una subconsulta escalar debe devolver exactamente una columna"@))
    } else if out.rows.len() == 0 {
        Ok(ValueV::Null)
    } else if out.rows.len() == 1 {
        Ok(out.rows[0][0])
    } else {
        Err(sql_error("una subconsulta escalar devolvió más de una fila"@))
    }
}

/// The list that the rows of a subquery make.
pub open spec fn list_of(out: SelectOutV) -> Result<Seq<ExprV>, ErrorV> {
    if out.columns.len() != 1 {
        Err(sql_error("IN (SELECT …) requiere exactamente una columna"@))
    } else {
        Ok(Seq::new(out.rows.len(), |i: int| ExprV::Literal(out.rows[i][0])))
    }
}

/// When subqueries are answered: once before any row, those that refer to none of some
/// tables; or for a row, all of them.
pub ghost enum PassV {
    Once(Seq<Seq<char>>),
    PerRow(SchemaV, Seq<ValueV>),
}

/// The query to run for a subquery, if it can be run in this pass.
pub open spec fn ready(pass: PassV, q: SelectStmtV) -> Option<SelectStmtV> {
    match pass {
        PassV::Once(quals) => if select_refers(q, quals) { None } else { Some(q) },
        PassV::PerRow(s, row) => Some(select_with_outer(q, s, row)),
    }
}

/// The expression with the subqueries of this pass replaced by what they give.
pub open spec fn answered(env: EnvV, run: Runner, ctes: Seq<CteEntryV>, pass: PassV, e: ExprV) -> Result<ExprV, ErrorV>
    decreases expr_size(e), 0nat,
{
    proof {
        lemma_parts_size(e);
    }
    match e {
        ExprV::ScalarSubquery(q) => match ready(pass, *q) {
            None => Ok(e),
            Some(q2) => {
                match run(env, ctes, q2) {
                    Err(e) => Err(e),
                    Ok(out) => {
                        match scalar_of(out) {
                            Err(e) => Err(e),
                            Ok(v) => {
                                Ok(ExprV::Literal(v))
                            },
                        }
                    },
                }
            },
        },
        ExprV::Exists(q) => match ready(pass, *q) {
            None => Ok(e),
            Some(q2) => {
                match run(env, ctes, q2) {
                    Err(e) => Err(e),
                    Ok(out) => {
                        Ok(ExprV::Literal(ValueV::Bool(out.rows.len() > 0)))
                    },
                }
            },
        },
        ExprV::InSubquery { expr, query, negated } => match ready(pass, *query) {
            None => {
                match answered(branch(env, 1), run, ctes, pass, parts(e)[0]) {
                    Err(e) => Err(e),
                    Ok(x) => {
                        Ok(ExprV::InSubquery { expr: Box::new(x), query, negated })
                    },
                }
            },
            Some(q2) => {
                match run(branch(env, 0), ctes, q2) {
                    Err(e) => Err(e),
                    Ok(out) => {
                        match list_of(out) {
                            Err(e) => Err(e),
                            Ok(list) => {
                                match answered(branch(env, 1), run, ctes, pass, parts(e)[0]) {
                                    Err(e) => Err(e),
                                    Ok(x) => {
                                        Ok(ExprV::In { expr: Box::new(x), list, negated })
                                    },
                                }
                            },
                        }
                    },
                }
            },
        },
        _ => {
            match all_answered(env, run, ctes, pass, parts(e)) {
                Err(e) => Err(e),
                Ok(ps) => {
                    Ok(with_parts(e, ps))
                },
            }
        },
    }
}

pub open spec fn all_answered(env: EnvV, run: Runner, ctes: Seq<CteEntryV>, pass: PassV, es: Seq<ExprV>) -> Result<Seq<ExprV>, ErrorV>
    decreases exprs_size(es), 1 + es.len(),
{
    if es.len() == 0 {
        Ok(Seq::empty())
    } else {
        match answered(branch(env, es.len() as int), run, ctes, pass, es[0]) {
            Err(e) => Err(e),
            Ok(p) => {
                match all_answered(env, run, ctes, pass, es.drop_first()) {
                    Err(e) => Err(e),
                    Ok(rest) => {
                        Ok(seq![p] + rest)
                    },
                }
            },
        }
    }
}

/// The SELECT with those of its subqueries answered that refer to none of its tables.
pub open spec fn settled_select(env: EnvV, run: Runner, ctes: Seq<CteEntryV>, stmt: SelectStmtV) -> Result<SelectStmtV, ErrorV> {
    if any_subquery(select_parts(stmt)) {
        match all_answered(env, run, ctes, PassV::Once(qualifiers(stmt)), select_parts(stmt)) {
            Err(e) => Err(e),
            Ok(ps) => {
                Ok(with_select_parts(stmt, ps))
            },
        }
    } else {
        Ok(stmt)
    }
}

// --- common table expressions ---

/// The SELECT, or one chained to it, reads from the table of that name.
pub open spec fn reads_from(s: SelectStmtV, name: Seq<char>) -> bool
    decreases s,
{
    (match s.from {
            Some(t) => is_plain(t, name),
            None => false,
    }) || (exists|i: int| 0 <= i < s.joins.len() && is_plain((#[trigger] s.joins[i]).table, name)) || (exists|i: int| 0 <= i < s.compound.len() && reads_from((#[trigger] s.compound[i]).select, name))
}

pub open spec fn is_plain(t: TableRefV, name: Seq<char>) -> bool {
    t.subquery is None && t.name == name
}

/// The query without what is chained to it and its final clauses.
pub open spec fn core_of(q: SelectStmtV) -> SelectStmtV {
    SelectStmtV { compound: Seq::empty(), order_by: Seq::empty(), limit: None, offset: None, ..q }
}

/// The rows that equal none of `from`.
pub open spec fn absent(rows: Seq<Seq<ValueV>>, from: Seq<Seq<ValueV>>) -> Seq<Seq<ValueV>>
    decreases rows.len(),
{
    if rows.len() == 0 {
        Seq::empty()
    } else {
        let rest = absent(rows.drop_last(), from);
        if has_row(from, rows.last()) {
            rest
        } else {
            rest.push(rows.last())
        }
    }
}

/// The rows that equal one of `from`.
pub open spec fn present(rows: Seq<Seq<ValueV>>, from: Seq<Seq<ValueV>>) -> Seq<Seq<ValueV>>
    decreases rows.len(),
{
    if rows.len() == 0 {
        Seq::empty()
    } else {
        let rest = present(rows.drop_last(), from);
        if has_row(from, rows.last()) {
            rest.push(rows.last())
        } else {
            rest
        }
    }
}

/// All rows of a recursive expression: `all` so far, the last step being `working`. The
/// term sees the expression, at place `at` of the scope, as the last step.
pub open spec fn fixpoint(env: EnvV, run: Runner, ctes: Seq<CteEntryV>, at: int, name: Seq<char>, columns: Seq<Seq<char>>, term: SelectStmtV, keep_all: bool, all: Seq<Seq<ValueV>>, working: Seq<Seq<ValueV>>) -> Result<Seq<Seq<ValueV>>, ErrorV>
    decreases MAX_ROWS - all.len(),
{
    let seen = CteEntryV { name, def: result_table(name, columns), rows: working };
    match run(branch(env, all.len() as int), ctes.insert(at, seen), term) {
        Err(e) => Err(e),
        Ok(step) => {
            if step.columns.len() != columns.len() {
                Err(sql_error("CTE recursiva: el término tiene distinto número de columnas que la semilla"@))
            } else {
                let fresh = if keep_all { step.rows } else { absent(distinct_rows(step.rows), all) };
                if fresh.len() == 0 {
                    Ok(all)
                } else if all.len() + fresh.len() > MAX_ROWS {
                    Err(sql_error("CTE recursiva: demasiadas filas (¿recursión sin caso base?)"@))
                } else {
                    fixpoint(env, run, ctes, at, name, columns, term, keep_all, all + fresh, fresh)
                }
            }
        },
    }
}

/// The columns and rows of a recursive expression.
pub open spec fn recursive_rows(env: EnvV, run: Runner, ctes: Seq<CteEntryV>, at: int, cte: CteV) -> Result<SelectOutV, ErrorV> {
    if cte.query.compound.len() != 1 {
        Err(sql_error("CTE recursiva: usa exactamente «semilla UNION [ALL] término»"@))
    } else {
        match run(branch(env, 0), ctes, core_of(cte.query)) {
            Err(e) => Err(e),
            Ok(seed) => {
                match fixpoint(branch(env, 1), run, ctes, at, cte.name, seed.columns, cte.query.compound[0].select, cte.query.compound[0].op == SetOp::UnionAll, seed.rows, seed.rows) {
                    Err(e) => Err(e),
                    Ok(rows) => {
                        Ok(SelectOutV { columns: seed.columns, rows })
                    },
                }
            },
        }
    }
}

/// A named result as an entry of the scope.
pub open spec fn named(name: Seq<char>, out: SelectOutV) -> CteEntryV {
    CteEntryV { name, def: result_table(name, out.columns), rows: out.rows }
}

/// The scope after the expressions from `i` on; each sees those before it, and comes
/// before what was in the scope.
pub open spec fn scope_with(env: EnvV, run: Runner, with: Seq<CteV>, ctes: Seq<CteEntryV>, i: int) -> Result<Seq<CteEntryV>, ErrorV>
    decreases with.len() - i,
{
    if i < 0 || i >= with.len() {
        Ok(ctes)
    } else {
        let cte = with[i];
        match if reads_from(cte.query, cte.name) { recursive_rows(branch(env, i), run, ctes, i, cte) } else { run(branch(env, i), ctes, cte.query) } {
            Err(e) => Err(e),
            Ok(out) => {
                scope_with(env, run, with, ctes.insert(i, named(cte.name, out)), i + 1)
            },
        }
    }
}

// --- derived tables ---

/// A derived table becomes a table with the name of its alias.
pub open spec fn flattened(t: TableRefV) -> TableRefV {
    if t.subquery is Some {
        TableRefV { name: qualifier_of(t), alias: t.alias, subquery: None }
    } else {
        t
    }
}

/// The tables of a SELECT.
pub open spec fn tables_of(stmt: SelectStmtV) -> Seq<TableRefV> {
    (match stmt.from {
            Some(t) => seq![t],
            None => Seq::empty(),
    }) + Seq::new(stmt.joins.len(), |i: int| stmt.joins[i].table)
}

pub open spec fn has_derived(stmt: SelectStmtV) -> bool {
    exists|i: int| 0 <= i < tables_of(stmt).len() && (#[trigger] tables_of(stmt)[i]).subquery is Some
}

/// The entries of the derived tables from `i` on.
pub open spec fn derived_entries(env: EnvV, run: Runner, ctes: Seq<CteEntryV>, ts: Seq<TableRefV>, i: int) -> Result<Seq<CteEntryV>, ErrorV>
    decreases ts.len() - i,
{
    if i < 0 || i >= ts.len() {
        Ok(Seq::empty())
    } else {
        match ts[i].subquery {
            None => derived_entries(env, run, ctes, ts, i + 1),
            Some(q) => {
                match run(branch(env, i), ctes, *q) {
                    Err(e) => Err(e),
                    Ok(out) => {
                        match derived_entries(env, run, ctes, ts, i + 1) {
                            Err(e) => Err(e),
                            Ok(rest) => {
                                Ok(seq![named(qualifier_of(ts[i]), out)] + rest)
                            },
                        }
                    },
                }
            },
        }
    }
}

/// The SELECT with its derived tables as tables.
pub open spec fn flat_select(stmt: SelectStmtV) -> SelectStmtV {
    SelectStmtV {
        from: match stmt.from {
            Some(t) => Some(flattened(t)),
            None => None,
        },
        joins: Seq::new(stmt.joins.len(), |i: int| JoinV { kind: stmt.joins[i].kind, table: flattened(stmt.joins[i].table), on: stmt.joins[i].on }),
        ..stmt
    }
}

// --- set operators ---

/// Rows combined with those of a chained SELECT.
pub open spec fn combined(op: SetOp, rows: Seq<Seq<ValueV>>, part: Seq<Seq<ValueV>>) -> Seq<Seq<ValueV>> {
    match op {
        SetOp::UnionAll => rows + part,
        SetOp::Union => distinct_rows(rows + part),
        SetOp::Intersect => present(distinct_rows(rows), part),
        SetOp::Except => absent(distinct_rows(rows), part),
    }
}

/// A row is among others, or equals one of them.
pub open spec fn stands(rows: Seq<Seq<ValueV>>, row: Seq<ValueV>) -> bool {
    rows.contains(row) || has_row(rows, row)
}

proof fn lemma_distinct_members(rows: Seq<Seq<ValueV>>)
    ensures
        forall|i: int| 0 <= i < rows.len() ==> stands(distinct_rows(rows), #[trigger] rows[i]),
        forall|i: int| 0 <= i < distinct_rows(rows).len() ==> rows.contains(#[trigger] distinct_rows(rows)[i]),
    decreases rows.len(),
{
    if rows.len() > 0 {
        let init = rows.drop_last();
        let seen = distinct_rows(init);
        let all = distinct_rows(rows);
        lemma_distinct_members(init);
        assert forall|i: int| 0 <= i < rows.len() implies stands(all, #[trigger] rows[i]) by {
            if i < init.len() {
                assert(stands(seen, init[i]));
                if seen.contains(rows[i]) {
                    let k = choose|k: int| 0 <= k < seen.len() && seen[k] == rows[i];
                    assert(all[k] == rows[i]);
                } else {
                    let k = choose|k: int| 0 <= k < seen.len() && rows_equal(#[trigger] seen[k], rows[i]);
                    assert(all[k] == seen[k]);
                }
            } else if !has_row(seen, rows.last()) {
                assert(all[all.len() - 1] == rows[i]);
            }
        }
        assert forall|i: int| 0 <= i < all.len() implies rows.contains(#[trigger] all[i]) by {
            if i < seen.len() {
                assert(all[i] == seen[i]);
                let k = choose|k: int| 0 <= k < init.len() && init[k] == seen[i];
                assert(rows[k] == all[i]);
            } else {
                assert(rows[rows.len() - 1] == all[i]);
            }
        }
    }
}

proof fn lemma_parted(rows: Seq<Seq<ValueV>>, from: Seq<Seq<ValueV>>)
    ensures
        forall|i: int| 0 <= i < present(rows, from).len() ==> rows.contains(#[trigger] present(rows, from)[i]) && has_row(from, present(rows, from)[i]),
        forall|i: int| 0 <= i < absent(rows, from).len() ==> rows.contains(#[trigger] absent(rows, from)[i]) && !has_row(from, absent(rows, from)[i]),
        forall|i: int| 0 <= i < rows.len() ==> if has_row(from, #[trigger] rows[i]) {
            present(rows, from).contains(rows[i])
        } else {
            absent(rows, from).contains(rows[i])
        },
    decreases rows.len(),
{
    if rows.len() > 0 {
        let init = rows.drop_last();
        let p = present(rows, from);
        let q = present(init, from);
        let a = absent(rows, from);
        let b = absent(init, from);
        lemma_parted(init, from);
        assert forall|i: int| 0 <= i < p.len() implies rows.contains(#[trigger] p[i]) && has_row(from, p[i]) by {
            if i < q.len() {
                assert(p[i] == q[i]);
                let k = choose|k: int| 0 <= k < init.len() && init[k] == q[i];
                assert(rows[k] == p[i]);
            } else {
                assert(rows[rows.len() - 1] == p[i]);
            }
        }
        assert forall|i: int| 0 <= i < a.len() implies rows.contains(#[trigger] a[i]) && !has_row(from, a[i]) by {
            if i < b.len() {
                assert(a[i] == b[i]);
                let k = choose|k: int| 0 <= k < init.len() && init[k] == b[i];
                assert(rows[k] == a[i]);
            } else {
                assert(rows[rows.len() - 1] == a[i]);
            }
        }
        assert forall|i: int| 0 <= i < rows.len() implies if has_row(from, #[trigger] rows[i]) {
            p.contains(rows[i])
        } else {
            a.contains(rows[i])
        } by {
            if i < init.len() {
                assert(init[i] == rows[i]);
                if has_row(from, rows[i]) {
                    let k = choose|k: int| 0 <= k < q.len() && q[k] == rows[i];
                    assert(p[k] == rows[i]);
                } else {
                    let k = choose|k: int| 0 <= k < b.len() && b[k] == rows[i];
                    assert(a[k] == rows[i]);
                }
            } else if has_row(from, rows[i]) {
                assert(p[p.len() - 1] == rows[i]);
            } else {
                assert(a[a.len() - 1] == rows[i]);
            }
        }
    }
}

/// UNION holds the rows of both sides and no others. INTERSECT holds those of the distinct
/// rows of the first side that equal a row of the second, EXCEPT those that equal none.
pub proof fn set_operators(rows: Seq<Seq<ValueV>>, part: Seq<Seq<ValueV>>)
    ensures
        ({
            let u = combined(SetOp::Union, rows, part);
            &&& forall|i: int| 0 <= i < rows.len() ==> stands(u, #[trigger] rows[i])
            &&& forall|i: int| 0 <= i < part.len() ==> stands(u, #[trigger] part[i])
            &&& forall|i: int| 0 <= i < u.len() ==> rows.contains(#[trigger] u[i]) || part.contains(u[i])
        }),
        ({
            let x = combined(SetOp::Intersect, rows, part);
            let y = combined(SetOp::Except, rows, part);
            let d = distinct_rows(rows);
            &&& forall|i: int| 0 <= i < x.len() ==> d.contains(#[trigger] x[i]) && has_row(part, x[i])
            &&& forall|i: int| 0 <= i < y.len() ==> d.contains(#[trigger] y[i]) && !has_row(part, y[i])
            &&& forall|i: int| 0 <= i < d.len() ==> (if has_row(part, #[trigger] d[i]) { x.contains(d[i]) } else { y.contains(d[i]) })
        }),
{
    let all = rows + part;
    let u = distinct_rows(all);
    lemma_distinct_members(all);
    assert forall|i: int| 0 <= i < rows.len() implies stands(u, #[trigger] rows[i]) by {
        assert(all[i] == rows[i]);
    }
    assert forall|i: int| 0 <= i < part.len() implies stands(u, #[trigger] part[i]) by {
        assert(all[rows.len() + i] == part[i]);
    }
    assert forall|i: int| 0 <= i < u.len() implies rows.contains(#[trigger] u[i]) || part.contains(u[i]) by {
        let k = choose|k: int| 0 <= k < all.len() && all[k] == u[i];
        if k < rows.len() {
            assert(rows[k] == u[i]);
        } else {
            assert(part[k - rows.len()] == u[i]);
        }
    }
    lemma_parted(distinct_rows(rows), part);
}

pub open spec fn mismatched(a: nat, b: nat) -> ErrorV {
    sql_error("operador de conjunto: los SELECT tienen distinto número de columnas ("@ + nat_text(a) + (" vs "@ + nat_text(b) + ")"@))
}

/// The rows after the chained SELECTs from `i` on.
pub open spec fn compound_rows(env: EnvV, run: Runner, ctes: Seq<CteEntryV>, parts: Seq<CompoundSelectV>, columns: nat, rows: Seq<Seq<ValueV>>, i: int) -> Result<Seq<Seq<ValueV>>, ErrorV>
    decreases parts.len() - i,
{
    if i < 0 || i >= parts.len() {
        Ok(rows)
    } else {
        match run(branch(env, i), ctes, parts[i].select) {
            Err(e) => Err(e),
            Ok(out) => {
                if out.columns.len() != columns {
                    Err(mismatched(columns, out.columns.len()))
                } else {
                    compound_rows(env, run, ctes, parts, columns, combined(parts[i].op, rows, out.rows), i + 1)
                }
            },
        }
    }
}

/// A SELECT with others chained to it.
pub open spec fn compound_output(env: EnvV, run: Runner, ctes: Seq<CteEntryV>, stmt: SelectStmtV, params: Seq<ValueV>) -> Result<SelectOutV, ErrorV> {
    match run(branch(env, 7), ctes, core_of(stmt)) {
        Err(e) => Err(e),
        Ok(lead) => {
            match compound_rows(branch(env, 8), run, ctes, stmt.compound, lead.columns.len(), lead.rows, 0) {
                Err(e) => Err(e),
                Ok(rows) => {
                    match sorted_output(env, rows, stmt.order_by, lead.columns) {
                        Err(e) => Err(e),
                        Ok(sorted) => {
                            match limited(env, sorted, stmt.limit, stmt.offset, params) {
                                Err(e) => Err(e),
                                Ok(cut) => {
                                    Ok(SelectOutV { columns: lead.columns, rows: cut })
                                },
                            }
                        },
                    }
                },
            }
        },
    }
}

// --- the rows of one SELECT ---

/// The table of a reference.
pub open spec fn looked_up(find: Finder, n: int, t: TableRefV) -> Result<FoundV, ErrorV> {
    match find(n, t.name) {
        Err(e) => Err(e),
        Ok(f) => {
            match f {
                Some(x) => Ok(x),
                None => Err(sql_error("tabla desconocida: "@ + t.name)),
            }
        },
    }
}

/// All rows of a table.
pub open spec fn scanned<S: DataSource>(src: S, f: FoundV) -> Result<Seq<Seq<ValueV>>, ErrorV> {
    match f.rows {
        Some(rows) => Ok(rows),
        None => src.all_rows(f.def),
    }
}

/// The rows of the first table: without joins, those that the chosen access reaches;
/// with joins, those that its own conditions leave.
pub open spec fn first_rows<S: DataSource>(src: S, env: EnvV, f: FoundV, q: Seq<char>, stmt: SelectStmtV, params: Seq<ValueV>) -> Result<Seq<Seq<ValueV>>, ErrorV> {
    if stmt.joins.len() == 0 && f.rows is None {
        match access(env, q, f.def, stmt, params) {
            Err(e) => Err(e),
            Ok(a) => {
                reached(src, f.def, a)
            },
        }
    } else {
        match scanned(src, f) {
            Err(e) => Err(e),
            Ok(rows) => {
                if stmt.joins.len() == 0 {
                    Ok(rows)
                } else {
                    prefiltered(branch(env, 10), rows, q, f.def, conditions(stmt.where_clause), params)
                }
            },
        }
    }
}

/// The schema and rows after the joins from `i` on.
pub open spec fn all_joined<S: DataSource>(src: S, env: EnvV, find: Finder, stmt: SelectStmtV, s: SchemaV, rows: Seq<Seq<ValueV>>, params: Seq<ValueV>, i: int) -> Result<(SchemaV, Seq<Seq<ValueV>>), ErrorV>
    decreases stmt.joins.len() - i,
{
    if i < 0 || i >= stmt.joins.len() {
        Ok((s, rows))
    } else {
        let j = stmt.joins[i];
        let q = qualifier_of(j.table);
        match looked_up(find, i + 1, j.table) {
            Err(e) => Err(e),
            Ok(f) => {
                match scanned(src, f) {
                    Err(e) => Err(e),
                    Ok(found) => {
                        match if j.kind == JoinKind::Inner { prefiltered(branch(branch(env, 11), i), found, q, f.def, conditions(stmt.where_clause), params) } else { Ok(found) } {
                            Err(e) => Err(e),
                            Ok(right) => {
                                match pushed(s, q, f.def) {
                                    Err(e) => Err(e),
                                    Ok(s2) => {
                                        match without_aggregates(j.on, "ON"@) {
                                            Err(e) => Err(e),
                                            Ok(u) => {
                                                match valid_columns(j.on, s2) {
                                                    Err(e) => Err(e),
                                                    Ok(w) => {
                                                        match joined(branch(branch(env, 12), i), rows, right, j.kind, j.on, s2, f.def.columns.len(), params, 0) {
                                                            Err(e) => Err(e),
                                                            Ok(both) => {
                                                                all_joined(src, env, find, stmt, s2, both, params, i + 1)
                                                            },
                                                        }
                                                    },
                                                }
                                            },
                                        }
                                    },
                                }
                            },
                        }
                    },
                }
            },
        }
    }
}

/// The expression to evaluate on a row: subqueries that refer to the row are answered.
pub open spec fn on_row(env: EnvV, run: Runner, ctes: Seq<CteEntryV>, e: ExprV, s: SchemaV, row: Seq<ValueV>) -> Result<ExprV, ErrorV> {
    if mentions_subquery(e) {
        answered(env, run, ctes, PassV::PerRow(s, row), e)
    } else {
        Ok(e)
    }
}

/// The value of an expression on a row, its subqueries answered.
pub open spec fn row_value(env: EnvV, run: Runner, ctes: Seq<CteEntryV>, e: ExprV, s: SchemaV, row: Seq<ValueV>, params: Seq<ValueV>) -> Result<ValueV, ErrorV> {
    match on_row(branch(env, 0), run, ctes, e, s, row) {
        Err(e) => Err(e),
        Ok(x) => {
            value_of(branch(env, 1), x, Some((s, row)), params)
        },
    }
}

/// The rows from `i` on for which the condition holds.
pub open spec fn where_rows(env: EnvV, run: Runner, ctes: Seq<CteEntryV>, cond: ExprV, s: SchemaV, rows: Seq<Seq<ValueV>>, params: Seq<ValueV>, i: int) -> Result<Seq<Seq<ValueV>>, ErrorV>
    decreases rows.len() - i,
{
    if i < 0 || i >= rows.len() {
        Ok(Seq::empty())
    } else {
        match row_value(branch(env, i), run, ctes, cond, s, rows[i], params) {
            Err(e) => Err(e),
            Ok(v) => {
                match truth(v) {
                    Err(e) => Err(e),
                    Ok(b) => {
                        match where_rows(env, run, ctes, cond, s, rows, params, i + 1) {
                            Err(e) => Err(e),
                            Ok(rest) => {
                                if b {
                                    Ok(seq![rows[i]] + rest)
                                } else {
                                    Ok(rest)
                                }
                            },
                        }
                    },
                }
            },
        }
    }
}

pub open spec fn filtered(env: EnvV, run: Runner, ctes: Seq<CteEntryV>, cond: Option<ExprV>, s: SchemaV, rows: Seq<Seq<ValueV>>, params: Seq<ValueV>) -> Result<Seq<Seq<ValueV>>, ErrorV> {
    match cond {
        None => Ok(rows),
        Some(c) => {
            match without_aggregates(c, "WHERE"@) {
                Err(e) => Err(e),
                Ok(u) => {
                    match valid_columns(c, s) {
                        Err(e) => Err(e),
                        Ok(w) => {
                            where_rows(branch(env, 1), run, ctes, c, s, rows, params, 0)
                        },
                    }
                },
            }
        },
    }
}

// --- output ---

pub open spec fn any_aggregate(stmt: SelectStmtV) -> bool {
    (exists|i: int| 0 <= i < stmt.projection.len() && (#[trigger] stmt.projection[i]) is Expr && mentions_aggregate(stmt.projection[i]->expr)) || (stmt.having is Some && mentions_aggregate(stmt.having->0))
}

pub open spec fn any_window(stmt: SelectStmtV) -> bool {
    exists|i: int| 0 <= i < stmt.projection.len() && (#[trigger] stmt.projection[i]) is Expr && mentions_window(stmt.projection[i]->expr)
}

/// `HAVING` keeps the rows taken as one group.
pub open spec fn whole_holds(env: EnvV, having: Option<ExprV>, s: SchemaV, rows: Seq<Seq<ValueV>>, params: Seq<ValueV>) -> Result<bool, ErrorV> {
    match having {
        None => Ok(true),
        Some(h) => {
            match valid_columns(h, s) {
                Err(e) => Err(e),
                Ok(u) => {
                    match with_aggregates(branch(env, 0), h, s, rows, params) {
                        Err(e) => Err(e),
                        Ok(x) => {
                            match value_of(branch(env, 1), x, None, params) {
                                Err(e) => Err(e),
                                Ok(v) => {
                                    truth(v)
                                },
                            }
                        },
                    }
                },
            }
        },
    }
}

/// Aggregates without groups: one row, unless `HAVING` drops it.
pub open spec fn aggregate_output(env: EnvV, stmt: SelectStmtV, s: SchemaV, rows: Seq<Seq<ValueV>>, params: Seq<ValueV>) -> Result<SelectOutV, ErrorV> {
    match aggregate_items(branch(env, 0), stmt.projection, s, rows, params, 0) {
        Err(e) => Err(e),
        Ok(out) => {
            match whole_holds(branch(env, 1), stmt.having, s, rows, params) {
                Err(e) => Err(e),
                Ok(keep) => {
                    if keep {
                        match limited(env, seq![out.1], stmt.limit, stmt.offset, params) {
                            Err(e) => Err(e),
                            Ok(cut) => {
                                Ok(SelectOutV { columns: out.0, rows: cut })
                            },
                        }
                    } else {
                        Ok(SelectOutV { columns: out.0, rows: Seq::empty() })
                    }
                },
            }
        },
    }
}

/// The sort keys of a row, from the `j`-th on.
pub open spec fn row_sort_keys(env: EnvV, stmt: SelectStmtV, s: SchemaV, row: Seq<ValueV>, params: Seq<ValueV>, j: int) -> Result<Seq<ValueV>, ErrorV>
    decreases stmt.order_by.len() - j,
{
    if j < 0 || j >= stmt.order_by.len() {
        Ok(Seq::empty())
    } else {
        match key_expr(stmt.order_by[j], stmt.projection) {
            Err(e) => Err(e),
            Ok(e) => {
                match valid_columns(e, s) {
                    Err(e) => Err(e),
                    Ok(u) => {
                        match value_of(branch(env, j), e, Some((s, row)), params) {
                            Err(e) => Err(e),
                            Ok(v) => {
                                match row_sort_keys(env, stmt, s, row, params, j + 1) {
                                    Err(e) => Err(e),
                                    Ok(rest) => {
                                        Ok(seq![v] + rest)
                                    },
                                }
                            },
                        }
                    },
                }
            },
        }
    }
}

/// The sort keys of the rows from `i` on.
pub open spec fn sort_keys(env: EnvV, stmt: SelectStmtV, s: SchemaV, rows: Seq<Seq<ValueV>>, params: Seq<ValueV>, i: int) -> Result<Seq<Seq<ValueV>>, ErrorV>
    decreases rows.len() - i,
{
    if i < 0 || i >= rows.len() {
        Ok(Seq::empty())
    } else {
        match row_sort_keys(branch(env, i), stmt, s, rows[i], params, 0) {
            Err(e) => Err(e),
            Ok(k) => {
                match sort_keys(env, stmt, s, rows, params, i + 1) {
                    Err(e) => Err(e),
                    Ok(rest) => {
                        Ok(seq![k] + rest)
                    },
                }
            },
        }
    }
}

pub open spec fn sorted_rows(env: EnvV, stmt: SelectStmtV, s: SchemaV, rows: Seq<Seq<ValueV>>, params: Seq<ValueV>) -> Result<Seq<Seq<ValueV>>, ErrorV> {
    if stmt.order_by.len() == 0 {
        Ok(rows)
    } else {
        match sort_keys(branch(env, 2), stmt, s, rows, params, 0) {
            Err(e) => Err(e),
            Ok(keys) => {
                match sorted_items(env, keys, descents(stmt.order_by), positions(rows.len())) {
                    Err(e) => Err(e),
                    Ok(at) => {
                        Ok(rows_at(rows, at))
                    },
                }
            },
        }
    }
}

/// The columns of the items from `i` on are there.
pub open spec fn valid_items(items: Seq<SelectItemV>, s: SchemaV, i: int) -> Result<(), ErrorV>
    decreases items.len() - i,
{
    if i < 0 || i >= items.len() {
        Ok(())
    } else {
        match items[i] {
            SelectItemV::Star => valid_items(items, s, i + 1),
            SelectItemV::Expr { expr, alias: _ } => {
                match valid_columns(expr, s) {
                    Err(e) => Err(e),
                    Ok(u) => {
                        valid_items(items, s, i + 1)
                    },
                }
            },
        }
    }
}

/// The values of the items from `j` on for a row.
pub open spec fn projected_row(env: EnvV, run: Runner, ctes: Seq<CteEntryV>, items: Seq<SelectItemV>, s: SchemaV, row: Seq<ValueV>, params: Seq<ValueV>, j: int) -> Result<Seq<ValueV>, ErrorV>
    decreases items.len() - j,
{
    if j < 0 || j >= items.len() {
        Ok(Seq::empty())
    } else {
        match items[j] {
            SelectItemV::Star => {
                match projected_row(env, run, ctes, items, s, row, params, j + 1) {
                    Err(e) => Err(e),
                    Ok(rest) => {
                        Ok(values_at(row, star_from(s.tables, 0)) + rest)
                    },
                }
            },
            SelectItemV::Expr { expr, alias: _ } => {
                match row_value(branch(env, j), run, ctes, expr, s, row, params) {
                    Err(e) => Err(e),
                    Ok(v) => {
                        match projected_row(env, run, ctes, items, s, row, params, j + 1) {
                            Err(e) => Err(e),
                            Ok(rest) => {
                                Ok(seq![v] + rest)
                            },
                        }
                    },
                }
            },
        }
    }
}

/// The output rows for the rows from `i` on.
pub open spec fn projected(env: EnvV, run: Runner, ctes: Seq<CteEntryV>, items: Seq<SelectItemV>, s: SchemaV, rows: Seq<Seq<ValueV>>, params: Seq<ValueV>, i: int) -> Result<Seq<Seq<ValueV>>, ErrorV>
    decreases rows.len() - i,
{
    if i < 0 || i >= rows.len() {
        Ok(Seq::empty())
    } else {
        match projected_row(branch(env, i), run, ctes, items, s, rows[i], params, 0) {
            Err(e) => Err(e),
            Ok(r) => {
                match projected(env, run, ctes, items, s, rows, params, i + 1) {
                    Err(e) => Err(e),
                    Ok(rest) => {
                        Ok(seq![r] + rest)
                    },
                }
            },
        }
    }
}

/// Output row by row: sorted, cut, projected; with `DISTINCT`, cut after the rows that
/// repeat have gone.
pub open spec fn plain_output(env: EnvV, run: Runner, ctes: Seq<CteEntryV>, stmt: SelectStmtV, s: SchemaV, rows: Seq<Seq<ValueV>>, params: Seq<ValueV>) -> Result<SelectOutV, ErrorV> {
    match sorted_rows(env, stmt, s, rows, params) {
        Err(e) => Err(e),
        Ok(sorted) => {
            match if stmt.distinct { Ok(sorted) } else { limited(env, sorted, stmt.limit, stmt.offset, params) } {
                Err(e) => Err(e),
                Ok(cut) => {
                    match valid_items(stmt.projection, s, 0) {
                        Err(e) => Err(e),
                        Ok(u) => {
                            let columns = names_from(stmt.projection, star_names_from(s.tables, 0), 0);
                            match projected(branch(env, 3), run, ctes, stmt.projection, s, cut, params, 0) {
                                Err(e) => Err(e),
                                Ok(out) => {
                                    if stmt.distinct {
                                        match limited(env, distinct_rows(out), stmt.limit, stmt.offset, params) {
                                            Err(e) => Err(e),
                                            Ok(last) => {
                                                Ok(SelectOutV { columns, rows: last })
                                            },
                                        }
                                    } else {
                                        Ok(SelectOutV { columns, rows: out })
                                    }
                                },
                            }
                        },
                    }
                },
            }
        },
    }
}

/// What a SELECT gives on the rows that its condition left.
pub open spec fn rows_output(env: EnvV, run: Runner, ctes: Seq<CteEntryV>, stmt: SelectStmtV, s: SchemaV, rows: Seq<Seq<ValueV>>, params: Seq<ValueV>) -> Result<SelectOutV, ErrorV> {
    if stmt.group_by.len() > 0 {
        grouped_output(branch(env, 15), stmt, s, rows, params)
    } else if any_aggregate(stmt) {
        aggregate_output(branch(env, 14), stmt, s, rows, params)
    } else if stmt.having is Some {
        Err(sql_error("HAVING requiere GROUP BY o agregados"@))
    } else if any_window(stmt) {
        windowed_output(branch(env, 16), stmt, s, rows, params)
    } else {
        plain_output(env, run, ctes, stmt, s, rows, params)
    }
}

/// A SELECT without common table expressions, derived tables or chained SELECTs.
pub open spec fn simple_output<S: DataSource>(src: S, env: EnvV, run: Runner, find: Finder, ctes: Seq<CteEntryV>, stmt: SelectStmtV, params: Seq<ValueV>) -> Result<SelectOutV, ErrorV> {
    match stmt.from {
        None => tableless_output(env, stmt, params),
        Some(t) => {
            match looked_up(find, 0, t) {
                Err(e) => Err(e),
                Ok(f) => {
                    match with_ranks(src, branch(env, 19), one_table(qualifier_of(t), f.def), ranked_calls(stmt), params, 0) {
                        Err(e) => Err(e),
                        Ok(s) => {
                            match first_rows(src, env, f, qualifier_of(t), stmt, params) {
                                Err(e) => Err(e),
                                Ok(first) => {
                                    match all_joined(src, env, find, stmt, s, first, params, 0) {
                                        Err(e) => Err(e),
                                        Ok(both) => {
                                            match filtered(env, run, ctes, stmt.where_clause, both.0, both.1, params) {
                                                Err(e) => Err(e),
                                                Ok(left) => {
                                                    rows_output(env, run, ctes, stmt, both.0, left, params)
                                                },
                                            }
                                        },
                                    }
                                },
                            }
                        },
                    }
                },
            }
        },
    }
}

/// What a SELECT gives: common table expressions first, then derived tables, then
/// subqueries that can be answered once.
pub open spec fn select_output<S: DataSource>(src: S, env: EnvV, run: Runner, find: Finder, ctes: Seq<CteEntryV>, stmt: SelectStmtV, params: Seq<ValueV>) -> Result<SelectOutV, ErrorV> {
    if stmt.with.len() > 0 {
        match scope_with(branch(env, 5), run, stmt.with, ctes, 0) {
            Err(e) => Err(e),
            Ok(scope) => {
                run(env, scope, SelectStmtV { with: Seq::empty(), ..stmt })
            },
        }
    } else if has_derived(stmt) {
        match derived_entries(branch(env, 6), run, ctes, tables_of(stmt), 0) {
            Err(e) => Err(e),
            Ok(entries) => {
                run(env, entries + ctes, flat_select(stmt))
            },
        }
    } else {
        match settled_select(branch(env, 4), run, ctes, stmt) {
            Err(e) => Err(e),
            Ok(st) => {
                if st.compound.len() > 0 {
                    compound_output(env, run, ctes, st, params)
                } else {
                    simple_output(src, env, run, find, ctes, st, params)
                }
            },
        }
    }
}

// --- the queries inside a query ---

pub open spec fn too_deep() -> ErrorV {
    sql_error("consulta demasiado anidada"@)
}

/// Queries inside a query of that scope.
pub open spec fn runner<S: DataSource>(src: S, sc: ScopeV, params: Seq<ValueV>) -> Runner
    decreases usize::MAX - sc.depth, 0int,
{
    |here: EnvV, ctes: Seq<CteEntryV>, q: SelectStmtV| if sc.depth < usize::MAX {
        queried(src, here, ScopeV { ctes, views: sc.views, resolving: sc.resolving, depth: sc.depth + 1 }, q, params)
    } else {
        Err(too_deep())
    }
}

/// The rows of a view: its SELECT, which sees no named result and no parameter.
pub open spec fn view_rows<S: DataSource>(src: S, env: EnvV, sc: ScopeV, name: Seq<char>, sql: Seq<char>) -> Result<FoundV, ErrorV>
    decreases usize::MAX - sc.depth, 0int,
{
    if sc.resolving.contains(name) {
        Err(sql_error("vista recursiva: "@ + name))
    } else {
        match parsed(sql, env.reals) {
            Err(e) => Err(e),
            Ok(stmt) => {
                match stmt {
                    StmtV::Select(q) => if sc.depth < usize::MAX {
                        match queried(src, env, ScopeV { ctes: Seq::empty(), views: true, resolving: sc.resolving.push(name), depth: sc.depth + 1 }, q, Seq::empty()) {
                            Err(e) => Err(e),
                            Ok(out) => {
                                Ok(FoundV { def: result_table(name, out.columns), rows: Some(out.rows) })
                            },
                        }
                    } else {
                        Err(too_deep())
                    },
                    _ => Err(sql_error("la vista «"@ + name + "» no define un SELECT"@)),
                }
            },
        }
    }
}

/// The table of a name: a named result, a table of the source, or a view.
pub open spec fn found<S: DataSource>(src: S, env: EnvV, sc: ScopeV, name: Seq<char>) -> Result<Option<FoundV>, ErrorV>
    decreases usize::MAX - sc.depth, 1int,
{
    match entry_named(sc.ctes, name, 0) {
        Some(i) => Ok(Some(FoundV { def: sc.ctes[i].def, rows: Some(sc.ctes[i].rows) })),
        None => {
            match src.find_table(name) {
                Err(e) => Err(e),
                Ok(t) => {
                    match t {
                        Some(def) => Ok(Some(FoundV { def, rows: None })),
                        None => if !sc.views {
                            Ok(None)
                        } else {
                            match src.view_text(name) {
                                Err(e) => Err(e),
                                Ok(v) => {
                                    match v {
                                        None => Ok(None),
                                        Some(sql) => {
                                            match view_rows(src, env, sc, name, sql) {
                                                Err(e) => Err(e),
                                                Ok(f) => {
                                                    Ok(Some(f))
                                                },
                                            }
                                        },
                                    }
                                },
                            }
                        },
                    }
                },
            }
        },
    }
}

pub open spec fn finder<S: DataSource>(src: S, env: EnvV, sc: ScopeV) -> Finder
    decreases usize::MAX - sc.depth, 2int,
{
    |n: int, name: Seq<char>| found(src, branch(branch(env, 9), n), sc, name)
}

/// What a query of that scope gives.
pub open spec fn queried<S: DataSource>(src: S, env: EnvV, sc: ScopeV, stmt: SelectStmtV, params: Seq<ValueV>) -> Result<SelectOutV, ErrorV>
    decreases usize::MAX - sc.depth, 3int,
{
    select_output(src, env, runner(src, sc, params), finder(src, env, sc), sc.ctes, stmt, params)
}

/// The scope of a query on its own.
pub open spec fn top_scope(views: bool) -> ScopeV {
    ScopeV { ctes: Seq::empty(), views, resolving: Seq::empty(), depth: 0 }
}

// --- the machine ---

/// A table that was looked up.
pub struct Found {
    pub def: TableDef,
    pub rows: Option<Vec<Vec<Value>>>,
}

impl View for Found {
    type V = FoundV;

    open spec fn view(&self) -> FoundV {
        FoundV {
            def: self.def@,
            rows: match self.rows {
                Some(rows) => Some(rows_view(rows@)),
                None => None,
            },
        }
    }
}

/// The rows of the table are as wide as it is.
pub open spec fn found_ok(f: FoundV) -> bool {
    def_ok(f.def) && (f.rows is Some ==> rows_wide(f.rows->0, f.def.columns.len() as int))
}

/// When subqueries are answered.
pub enum Pass<'p> {
    Once(&'p Vec<String>),
    PerRow(&'p QuerySchema, &'p Vec<Value>),
}

impl<'p> View for Pass<'p> {
    type V = PassV;

    open spec fn view(&self) -> PassV {
        match self {
            Pass::Once(quals) => PassV::Once(strings_v(quals@)),
            Pass::PerRow(s, row) => PassV::PerRow(s@, row_view(row@)),
        }
    }
}

impl<'p> Pass<'p> {
    pub open spec fn ok(&self) -> bool {
        match self {
            Pass::Once(_) => true,
            Pass::PerRow(s, row) => s.wf() && row@.len() == row_width(s@.tables),
        }
    }

    fn prepare(&self, q: &SelectStmt) -> (r: Option<SelectStmt>)
        requires
            self.ok(),
        ensures
            (match ready(self@, q@) {
                    Some(x) => r is Some && r->0@ == x,
                    None => r is None,
            }),
    {
        match self {
            Pass::Once(quals) => if stmt_refs_quals(q, quals) {
                None
            } else {
                Some(clone_select(q))
            },
            Pass::PerRow(s, row) => Some(subst_outer_stmt(q, s, row)),
        }
    }
}

fn scalar_value(out: SelectOut) -> (r: Result<Value, Error>)
    requires
        fits(out@),
    ensures
        gives(r, scalar_of(out@)),
{
    assert(out@.columns.len() == out.columns@.len());
    if out.columns.len() != 1 {
        return Err(sql_lit("una subconsulta escalar debe devolver exactamente una columna"));
    }
    let n: usize = out.rows.len();
    if n == 0 {
        return Ok(Value::Null);
    }
    if n == 1 {
        assert(out@.rows[0] == row_view(out.rows@[0]@));
        assert(out@.rows[0].len() == 1);
        assert(out@.rows[0][0] == out.rows@[0]@[0]@);
        return Ok(out.rows[0][0].clone());
    }
    Err(sql_lit("una subconsulta escalar devolvió más de una fila"))
}

fn literal_list(out: SelectOut) -> (r: Result<Vec<Expr>, Error>)
    requires
        fits(out@),
    ensures
        (match list_of(out@) {
                Ok(es) => r is Ok && exprs_v(r->Ok_0@) == es,
                Err(e) => r is Err && r->Err_0@ == e,
        }),
{
    assert(out@.columns.len() == out.columns@.len());
    if out.columns.len() != 1 {
        return Err(sql_lit("IN (SELECT …) requiere exactamente una columna"));
    }
    let n: usize = out.rows.len();
    let mut list: Vec<Expr> = Vec::new();
    let ghost want = list_of(out@)->Ok_0;
    for i in 0..n
        invariant
            n == out.rows@.len(),
            fits(out@),
            out@.columns.len() == 1,
            want == list_of(out@)->Ok_0,
            want.len() == n,
            exprs_v(list@) == want.take(i as int),
    {
        let ghost before = exprs_v(list@);
        assert(out@.rows[i as int] == row_view(out.rows@[i as int]@));
        assert(out@.rows[i as int].len() == 1);
        assert(out@.rows[i as int][0] == out.rows@[i as int]@[0]@);
        let e = Expr::Literal(out.rows[i][0].clone());
        let ghost ev = e@;
        list.push(e);
        assert(exprs_v(list@) =~= before.push(ev));
        assert(want.take(i + 1) =~= before.push(ev));
    }
    assert(want.take(n as int) =~= want);
    Ok(list)
}

#[verifier::loop_isolation(false)]
fn select_reads(s: &SelectStmt, name: &str) -> (r: bool)
    ensures
        r == reads_from(s@, name@),
    decreases s,
{
    if let Some(t) = &s.from {
        if t.subquery.is_none() && str_eq(t.name.as_str(), name) {
            return true;
        }
    }
    let n: usize = s.joins.len();
    for i in 0..n
        invariant
            n == s.joins@.len(),
            forall|k: int| 0 <= k < i ==> !is_plain((#[trigger] s@.joins[k]).table, name@),
    {
        assert(s@.joins[i as int] == s.joins@[i as int]@);
        if s.joins[i].table.subquery.is_none() && str_eq(s.joins[i].table.name.as_str(), name) {
            assert(is_plain(s@.joins[i as int].table, name@));
            return true;
        }
    }
    let m: usize = s.compound.len();
    for i in 0..m
        invariant
            m == s.compound@.len(),
            forall|k: int| 0 <= k < i ==> !reads_from((#[trigger] s@.compound[k]).select, name@),
    {
        assert(s@.compound[i as int] == s.compound@[i as int]@);
        if select_reads(&s.compound[i].select, name) {
            assert(reads_from(s@.compound[i as int].select, name@));
            return true;
        }
    }
    false
}

fn core_select(q: &SelectStmt) -> (r: SelectStmt)
    ensures
        r@ == core_of(q@),
{
    let mut r = clone_select(q);
    let ghost before = r@;
    r.compound = Vec::new();
    r.order_by = Vec::new();
    r.limit = None;
    r.offset = None;
    assert(r@.compound =~= Seq::empty());
    assert(r@.order_by =~= Seq::empty());
    assert(r@ =~= core_of(before));
    r
}

fn rows_absent(rows: Vec<Vec<Value>>, from: &Vec<Vec<Value>>, keep_present: bool) -> (r: Vec<Vec<Value>>)
    ensures
        rows_view(r@) == (if keep_present { present(rows_view(rows@), rows_view(from@)) } else { absent(rows_view(rows@), rows_view(from@)) }),
        forall|w: int| #[trigger] rows_wide(rows_view(rows@), w) ==> rows_wide(rows_view(r@), w),
{
    let n: usize = rows.len();
    let ghost rv = rows_view(rows@);
    let ghost fv = rows_view(from@);
    let mut out: Vec<Vec<Value>> = Vec::new();
    assert(rows_view(out@) =~= Seq::empty());
    assert(rv.take(0) =~= Seq::empty());
    for i in 0..n
        invariant
            n == rows@.len(),
            rv == rows_view(rows@),
            fv == rows_view(from@),
            rows_view(out@) == (if keep_present { present(rv.take(i as int), fv) } else { absent(rv.take(i as int), fv) }),
            forall|w: int| #[trigger] rows_wide(rv, w) ==> rows_wide(rows_view(out@), w),
    {
        let ghost before = rows_view(out@);
        assert(rv[i as int] == row_view(rows@[i as int]@));
        assert(rv.take(i + 1).drop_last() =~= rv.take(i as int));
        let there: bool = contains_row(from, &rows[i]);
        if there == keep_present {
            out.push(clone_row(&rows[i]));
            assert(rows_view(out@) =~= before.push(rv[i as int]));
        }
    }
    assert(rv.take(n as int) =~= rv);
    out
}

fn append_rows(rows: &mut Vec<Vec<Value>>, more: &Vec<Vec<Value>>)
    ensures
        rows_view(final(rows)@) == rows_view(old(rows)@) + rows_view(more@),
        final(rows)@.len() == old(rows)@.len() + more@.len(),
{
    let n: usize = more.len();
    let ghost start = rows_view(rows@);
    let ghost mv = rows_view(more@);
    assert(rows_view(rows@) =~= start + mv.take(0));
    for i in 0..n
        invariant
            n == more@.len(),
            mv == rows_view(more@),
            start == rows_view(old(rows)@),
            rows@.len() == old(rows)@.len() + i,
            rows_view(rows@) == start + mv.take(i as int),
    {
        let ghost before = rows_view(rows@);
        assert(mv[i as int] == row_view(more@[i as int]@));
        rows.push(clone_row(&more[i]));
        assert(rows_view(rows@) =~= before.push(mv[i as int]));
        assert(start + mv.take(i + 1) =~= before.push(mv[i as int]));
    }
    assert(mv.take(n as int) =~= mv);
}

fn scope_plus(ctes: &Vec<CteEntry>, at: usize, e: CteEntry) -> (r: Vec<CteEntry>)
    requires
        at <= ctes@.len(),
        entries_ok(entries_v(ctes@)),
        entry_ok(e@),
    ensures
        entries_v(r@) == entries_v(ctes@).insert(at as int, e@),
        entries_ok(entries_v(r@)),
        r@.len() == ctes@.len() + 1,
{
    let mut r = clone_entries(ctes);
    assert(entries_v(r@).len() == r@.len());
    let ghost before = entries_v(r@);
    let ghost ev = e@;
    r.insert(at, e);
    proof {
        assert(entries_v(r@) =~= before.insert(at as int, ev));
        let all = entries_v(r@);
        assert forall|i: int| 0 <= i < all.len() implies entry_ok(#[trigger] all[i]) by {
            if i < at {
                assert(all[i] == before[i]);
            } else if i > at {
                assert(all[i] == before[i - 1]);
            }
        }
    }
    r
}

fn entry_of(name: &str, out: SelectOut) -> (r: CteEntry)
    requires
        fits(out@),
    ensures
        r@ == named(name@, out@),
        entry_ok(r@),
{
    let def = synthetic_cte_def(name, &out.columns);
    assert(strings_v(out.columns@).len() == out.columns@.len());
    CteEntry { name: name.to_owned(), def, rows: out.rows }
}

fn tables_in<'s>(stmt: &'s SelectStmt) -> (r: Vec<&'s TableRef>)
    ensures
        table_refs_v(r@) == tables_of(stmt@),
{
    let mut out: Vec<&'s TableRef> = Vec::new();
    match &stmt.from {
        Some(t) => {
            out.push(t);
        },
        None => {},
    }
    let ghost head = table_refs_v(out@);
    assert(head =~= (match stmt@.from {
                Some(t) => seq![t],
                None => Seq::empty(),
    }));
    let ghost js = Seq::new(stmt@.joins.len(), |i: int| stmt@.joins[i].table);
    let n: usize = stmt.joins.len();
    assert(table_refs_v(out@) =~= head + js.take(0));
    for i in 0..n
        invariant
            n == stmt.joins@.len(),
            js == Seq::new(stmt@.joins.len(), |i: int| stmt@.joins[i].table),
            table_refs_v(out@) == head + js.take(i as int),
    {
        let ghost before = table_refs_v(out@);
        assert(stmt@.joins[i as int] == stmt.joins@[i as int]@);
        out.push(&stmt.joins[i].table);
        assert(table_refs_v(out@) =~= before.push(js[i as int]));
        assert(head + js.take(i + 1) =~= before.push(js[i as int]));
    }
    assert(js.take(n as int) =~= js);
    out
}

spec fn table_refs_v(s: Seq<&TableRef>) -> Seq<TableRefV> {
    Seq::new(s.len(), |i: int| s[i]@)
}

fn select_has_derived(stmt: &SelectStmt) -> (r: bool)
    ensures
        r == has_derived(stmt@),
{
    let ts = tables_in(stmt);
    let n: usize = ts.len();
    let ghost tv = tables_of(stmt@);
    for i in 0..n
        invariant
            n == ts@.len(),
            tv == table_refs_v(ts@),
            tv == tables_of(stmt@),
            forall|k: int| 0 <= k < i ==> (#[trigger] tv[k]).subquery is None,
    {
        assert(tv[i as int] == ts@[i as int]@);
        if ts[i].subquery.is_some() {
            assert(tables_of(stmt@)[i as int].subquery is Some);
            return true;
        }
    }
    false
}

fn flatten(t: &TableRef) -> (r: TableRef)
    ensures
        r@ == flattened(t@),
{
    if t.subquery.is_some() {
        let alias: Option<String> = match &t.alias {
            Some(a) => Some(a.clone()),
            None => None,
        };
        TableRef { name: t.qualifier().to_owned(), alias, subquery: None }
    } else {
        clone_table_ref(t)
    }
}

fn flatten_select(stmt: &SelectStmt) -> (r: SelectStmt)
    ensures
        r@ == flat_select(stmt@),
{
    let mut r = clone_select(stmt);
    let ghost before = r@;
    let from: Option<TableRef> = match &stmt.from {
        Some(t) => Some(flatten(t)),
        None => None,
    };
    let n: usize = stmt.joins.len();
    let mut joins: Vec<Join> = Vec::new();
    for i in 0..n
        invariant
            n == stmt.joins@.len(),
            joins@.len() == i,
            forall|k: int| 0 <= k < i ==> (#[trigger] joins@[k])@ == flat_select(stmt@).joins[k],
    {
        assert(stmt@.joins[i as int] == stmt.joins@[i as int]@);
        joins.push(Join { kind: stmt.joins[i].kind, table: flatten(&stmt.joins[i].table), on: clone_expr(&stmt.joins[i].on) });
    }
    r.from = from;
    r.joins = joins;
    proof {
        assert forall|k: int| 0 <= k < n implies r@.joins[k] == flat_select(stmt@).joins[k] by {
            assert(r@.joins[k] == joins@[k]@);
        }
        assert(r@.joins =~= flat_select(stmt@).joins);
        assert(r@ =~= flat_select(stmt@));
    }
    r
}

pub(crate) fn has_any_aggregate(stmt: &SelectStmt) -> (r: bool)
    ensures
        r == any_aggregate(stmt@),
{
    let n: usize = stmt.projection.len();
    for i in 0..n
        invariant
            n == stmt.projection@.len(),
            forall|k: int| 0 <= k < i ==> !((#[trigger] stmt@.projection[k]) is Expr && mentions_aggregate(stmt@.projection[k]->expr)),
    {
        assert(stmt@.projection[i as int] == stmt.projection@[i as int]@);
        if let SelectItem::Expr { expr, alias: _ } = &stmt.projection[i] {
            if expr.has_aggregate() {
                assert(stmt@.projection[i as int] is Expr && mentions_aggregate(stmt@.projection[i as int]->expr));
                return true;
            }
        }
    }
    match &stmt.having {
        Some(h) => h.has_aggregate(),
        None => false,
    }
}

pub(crate) fn has_any_window(stmt: &SelectStmt) -> (r: bool)
    ensures
        r == any_window(stmt@),
{
    let n: usize = stmt.projection.len();
    for i in 0..n
        invariant
            n == stmt.projection@.len(),
            forall|k: int| 0 <= k < i ==> !((#[trigger] stmt@.projection[k]) is Expr && mentions_window(stmt@.projection[k]->expr)),
    {
        assert(stmt@.projection[i as int] == stmt.projection@[i as int]@);
        if let SelectItem::Expr { expr, alias: _ } = &stmt.projection[i] {
            if expr.has_window() {
                assert(stmt@.projection[i as int] is Expr && mentions_window(stmt@.projection[i as int]->expr));
                return true;
            }
        }
    }
    false
}

fn check_items(items: &Vec<SelectItem>, schema: &QuerySchema) -> (r: Result<(), Error>)
    requires
        schema.wf(),
    ensures
        checked(r, valid_items(select_items_v(items@), schema@, 0)),
{
    let n: usize = items.len();
    let ghost its = select_items_v(items@);
    for i in 0..n
        invariant
            n == items@.len(),
            its == select_items_v(items@),
            schema.wf(),
            valid_items(its, schema@, 0) == valid_items(its, schema@, i as int),
    {
        assert(its[i as int] == items@[i as int]@);
        if let SelectItem::Expr { expr, alias: _ } = &items[i] {
            validate_columns(expr, schema)?;
        }
    }
    Ok(())
}

fn keys_of_row(env: &Env, stmt: &SelectStmt, schema: &QuerySchema, row: &Vec<Value>, params: &Vec<Value>) -> (r: Result<Vec<Value>, Error>)
    requires
        row_fits(Some((schema, row))),
    ensures
        (match row_sort_keys(env@, stmt@, schema@, row_view(row@), row_view(params@), 0) {
                Ok(ks) => r is Ok && row_view(r->Ok_0@) == ks && ks.len() == stmt.order_by@.len(),
                Err(e) => r is Err && r->Err_0@ == e,
        }),
{
    let n: usize = stmt.order_by.len();
    let ghost rv = row_view(row@);
    let ghost pv = row_view(params@);
    let ghost all = row_sort_keys(env@, stmt@, schema@, rv, pv, 0);
    let mut out: Vec<Value> = Vec::new();
    assert(row_view(out@) =~= Seq::empty());
    assert(all is Ok ==> Seq::empty() + all->Ok_0 =~= all->Ok_0);
    for j in 0..n
        invariant
            n == stmt.order_by@.len(),
            n == stmt@.order_by.len(),
            rv == row_view(row@),
            pv == row_view(params@),
            row_fits(Some((schema, row))),
            out@.len() == j,
            all == row_sort_keys(env@, stmt@, schema@, rv, pv, 0),
            (match row_sort_keys(env@, stmt@, schema@, rv, pv, j as int) {
                    Ok(rest) => all == Ok::<_, ErrorV>(row_view(out@) + rest),
                    Err(e) => all == Err::<Seq<ValueV>, ErrorV>(e),
            }),
    {
        assert(stmt@.order_by[j as int] == stmt.order_by@[j as int]@);
        let e = order_key_expr(&stmt.order_by[j], &stmt.projection)?;
        validate_columns(e, schema)?;
        let v = eval(&env.branch(j), e, Some((schema, row)), params)?;
        let ghost before = row_view(out@);
        let ghost vv = v@;
        out.push(v);
        assert(row_view(out@) =~= before.push(vv));
        proof {
            match row_sort_keys(env@, stmt@, schema@, rv, pv, j + 1) {
                Ok(rest) => {
                    assert(before + (seq![vv] + rest) =~= row_view(out@) + rest);
                },
                Err(_) => {},
            }
        }
    }
    assert(row_view(out@) + Seq::<ValueV>::empty() =~= row_view(out@));
    Ok(out)
}

#[verifier::spinoff_prover]
fn sort_rows(env: &Env, stmt: &SelectStmt, schema: &QuerySchema, rows: Vec<Vec<Value>>, params: &Vec<Value>) -> (r: Result<Vec<Vec<Value>>, Error>)
    requires
        rows_fit(schema, rows@),
    ensures
        (match sorted_rows(env@, stmt@, schema@, rows_view(rows@), row_view(params@)) {
                Ok(s) => r is Ok && rows_view(r->Ok_0@) == s && rows_fit(schema, r->Ok_0@),
                Err(e) => r is Err && r->Err_0@ == e,
        }),
{
    assert(stmt@.order_by.len() == stmt.order_by@.len());
    if stmt.order_by.len() == 0 {
        return Ok(rows);
    }
    let n: usize = rows.len();
    let ghost rv = rows_view(rows@);
    let ghost pv = row_view(params@);
    let root = env.branch(2);
    let ghost all = sort_keys(root@, stmt@, schema@, rv, pv, 0);
    let ghost w = stmt.order_by@.len() as int;
    let mut keys: Vec<Vec<Value>> = Vec::new();
    assert(rows_view(keys@) =~= Seq::empty());
    assert(all is Ok ==> Seq::empty() + all->Ok_0 =~= all->Ok_0);
    for i in 0..n
        invariant
            n == rows@.len(),
            rv == rows_view(rows@),
            pv == row_view(params@),
            w == stmt.order_by@.len(),
            w > 0,
            stmt@.order_by.len() == w,
            rows_fit(schema, rows@),
            keys@.len() == i,
            keys_fit(keys@, w),
            root@ == branch(env@, 2),
            all == sort_keys(root@, stmt@, schema@, rv, pv, 0),
            (match sort_keys(root@, stmt@, schema@, rv, pv, i as int) {
                    Ok(rest) => all == Ok::<_, ErrorV>(rows_view(keys@) + rest),
                    Err(e) => all == Err::<Seq<Seq<ValueV>>, ErrorV>(e),
            }),
    {
        assert(rv[i as int] == row_view(rows@[i as int]@));
        let ghost before = rows_view(keys@);
        let k = keys_of_row(&root.branch(i), stmt, schema, &rows[i], params)?;
        let ghost kv = row_view(k@);
        keys.push(k);
        assert(rows_view(keys@) =~= before.push(kv));
        proof {
            match sort_keys(root@, stmt@, schema@, rv, pv, i + 1) {
                Ok(rest) => {
                    assert(before + (seq![kv] + rest) =~= rows_view(keys@) + rest);
                },
                Err(_) => {},
            }
        }
    }
    assert(rows_view(keys@) + Seq::<Seq<ValueV>>::empty() =~= rows_view(keys@));
    let descs = descents_of(&stmt.order_by);
    let places = positions_of(n);
    let at = sort_items(env, &keys, &descs, &places)?;
    Ok(pick_rows(&rows, &at))
}

/// A query with its source, its environment and what it sees.
struct Machine<'a, S: DataSource> {
    src: &'a S,
    env: &'a Env<'a>,
    params: &'a Vec<Value>,
    ctes: &'a Vec<CteEntry>,
    views: bool,
    resolving: &'a Vec<String>,
    depth: usize,
}

impl<'a, S: DataSource> Machine<'a, S> {

    spec fn scope(&self) -> ScopeV {
        ScopeV { ctes: entries_v(self.ctes@), views: self.views, resolving: strings_v(self.resolving@), depth: self.depth as nat }
    }

    spec fn cs(&self) -> Seq<CteEntryV> {
        entries_v(self.ctes@)
    }

    spec fn pv(&self) -> Seq<ValueV> {
        row_view(self.params@)
    }

    spec fn run(&self) -> Runner {
        runner(*self.src, self.scope(), self.pv())
    }

    spec fn find(&self) -> Finder {
        finder(*self.src, self.env@, self.scope())
    }

    spec fn ok(&self) -> bool {
        entries_ok(entries_v(self.ctes@))
    }

    /// A query inside this one.
    fn sub(&self, env: &Env<'_>, ctes: &Vec<CteEntry>, q: &SelectStmt) -> (r: Result<SelectOut, Error>)
        requires
            entries_ok(entries_v(ctes@)),
        ensures
            gives(r, self.run()(env@, entries_v(ctes@), q@)),
            r is Ok ==> fits(r->Ok_0@),
        decreases usize::MAX - self.depth, 0int, 0nat,
    {
        if self.depth == usize::MAX {
            return Err(sql_lit("consulta demasiado anidada"));
        }
        let inner = Machine { src: self.src, env, params: self.params, ctes, views: self.views, resolving: self.resolving, depth: self.depth + 1 };
        assert(inner.scope() == (ScopeV { ctes: entries_v(ctes@), views: self.views, resolving: strings_v(self.resolving@), depth: (self.depth + 1) as nat }));
        inner.select(q)
    }

    fn view(&self, env: &Env<'_>, name: &str, sql: &str) -> (r: Result<Found, Error>)
        ensures
            gives(r, view_rows(*self.src, env@, self.scope(), name@, sql@)),
            r is Ok ==> found_ok(r->Ok_0@),
        decreases usize::MAX - self.depth, 0int, 0nat,
    {
        if crate::exec::subquery::has_string(self.resolving, name) {
            return Err(sql_err(cat("vista recursiva: ", name)));
        }
        match parse(sql, env.reals)? {
            Stmt::Select(q) => {
                if self.depth == usize::MAX {
                    return Err(sql_lit("consulta demasiado anidada"));
                }
                let mut resolving = clone_strings(self.resolving);
                let ghost before = strings_v(resolving@);
                resolving.push(name.to_owned());
                assert(strings_v(resolving@) =~= before.push(name@));
                let none: Vec<CteEntry> = Vec::new();
                assert(entries_v(none@) =~= Seq::empty());
                let no_params: Vec<Value> = Vec::new();
                assert(row_view(no_params@) =~= Seq::empty());
                let inner = Machine { src: self.src, env, params: &no_params, ctes: &none, views: true, resolving: &resolving, depth: self.depth + 1 };
                assert(inner.scope() == (ScopeV { ctes: Seq::empty(), views: true, resolving: strings_v(self.resolving@).push(name@), depth: (self.depth + 1) as nat }));
                let out = inner.select(&q)?;
                let def = synthetic_cte_def(name, &out.columns);
                assert(strings_v(out.columns@).len() == out.columns@.len());
                Ok(Found { def, rows: Some(out.rows) })
            },
            _ => Err(sql_err(cat3("la vista «", name, "» no define un SELECT"))),
        }
    }

    fn lookup(&self, n: usize, t: &TableRef) -> (r: Result<Found, Error>)
        requires
            self.ok(),
        ensures
            gives(r, looked_up(self.find(), n as int, t@)),
            r is Ok ==> found_ok(r->Ok_0@),
        decreases usize::MAX - self.depth, 1int, 0nat,
    {
        let name = t.name.as_str();
        let tables = self.env.branch(9);
        let here = tables.branch(n);
        assert(self.find()(n as int, name@) == found(*self.src, here@, self.scope(), name@));
        if let Some(i) = find_entry(self.ctes, name) {
            assert(entries_v(self.ctes@)[i as int] == self.ctes@[i as int]@);
            assert(entry_ok(entries_v(self.ctes@)[i as int]));
            return Ok(Found { def: clone_table_def(&self.ctes[i].def), rows: Some(clone_rows(&self.ctes[i].rows)) });
        }
        if let Some(def) = self.src.table(name)? {
            return Ok(Found { def, rows: None });
        }
        if self.views {
            if let Some(sql) = self.src.view(name)? {
                return self.view(&here, name, sql.as_str());
            }
        }
        Err(sql_err(cat("tabla desconocida: ", name)))
    }

    fn answer(&self, env: &Env<'_>, pass: &Pass<'_>, e: &Expr) -> (r: Result<Expr, Error>)
        requires
            self.ok(),
            pass.ok(),
        ensures
            gives(r, answered(env@, self.run(), self.cs(), pass@, e@)),
        decreases usize::MAX - self.depth, 5int, expr_size(e@), 0nat,
    {
        proof {
            lemma_parts_size(e@);
        }
        match e {
            Expr::ScalarSubquery(q) => match pass.prepare(q) {
                None => Ok(clone_expr(e)),
                Some(q2) => {
                    let out = self.sub(env, self.ctes, &q2)?;
                    let v = scalar_value(out)?;
                    Ok(Expr::Literal(v))
                },
            },
            Expr::Exists(q) => match pass.prepare(q) {
                None => Ok(clone_expr(e)),
                Some(q2) => {
                    let out = self.sub(env, self.ctes, &q2)?;
                    assert(out@.rows.len() == out.rows@.len());
                    Ok(Expr::Literal(Value::Bool(out.rows.len() > 0)))
                },
            },
            Expr::InSubquery { expr, query, negated } => {
                proof {
                    lemma_exprs_size_elem(parts(e@), 0);
                    assert(parts(e@)[0] == expr@);
                }
                match pass.prepare(query) {
                    None => {
                        let x = self.answer(&env.branch(1), pass, expr)?;
                        Ok(Expr::InSubquery { expr: Box::new(x), query: Box::new(clone_select(query)), negated: *negated })
                    },
                    Some(q2) => {
                        let out = self.sub(&env.branch(0), self.ctes, &q2)?;
                        let list = literal_list(out)?;
                        let x = self.answer(&env.branch(1), pass, expr)?;
                        Ok(Expr::In { expr: Box::new(x), list, negated: *negated })
                    },
                }
            },
            _ => {
                let ps = parts_of(e);
                let out = self.answer_all(env, pass, &ps)?;
                Ok(rebuild(e, out))
            },
        }
    }

    fn answer_all(&self, env: &Env<'_>, pass: &Pass<'_>, ps: &Vec<&Expr>) -> (r: Result<Vec<Expr>, Error>)
        requires
            self.ok(),
            pass.ok(),
        ensures
            (match all_answered(env@, self.run(), self.cs(), pass@, refs_v(ps@)) {
                    Ok(es) => r is Ok && exprs_v(r->Ok_0@) == es && r->Ok_0@.len() == ps@.len(),
                    Err(e) => r is Err && r->Err_0@ == e,
            }),
        decreases usize::MAX - self.depth, 5int, exprs_size(refs_v(ps@)), 1nat,
    {
        let n: usize = ps.len();
        let ghost all = refs_v(ps@);
        let ghost whole = all_answered(env@, self.run(), self.cs(), pass@, all);
        let mut out: Vec<Expr> = Vec::new();
        assert(exprs_v(out@) =~= Seq::empty());
        assert(all.skip(0) =~= all);
        assert(whole is Ok ==> Seq::empty() + whole->Ok_0 =~= whole->Ok_0);
        for i in 0..n
            invariant
                n == ps@.len(),
                all == refs_v(ps@),
                self.ok(),
                pass.ok(),
                whole == all_answered(env@, self.run(), self.cs(), pass@, all),
                out@.len() == i,
                (match all_answered(env@, self.run(), self.cs(), pass@, all.skip(i as int)) {
                        Ok(rest) => whole == Ok::<_, ErrorV>(exprs_v(out@) + rest),
                        Err(e) => whole == Err::<Seq<ExprV>, ErrorV>(e),
                }),
        {
            proof {
                lemma_exprs_size_elem(all, i as int);
                assert(all[i as int] == ps@[i as int]@);
                assert(all.skip(i as int).drop_first() =~= all.skip(i + 1));
                assert(all.skip(i as int)[0] == all[i as int]);
            }
            let ghost before = exprs_v(out@);
            let p = self.answer(&env.branch(n - i), pass, ps[i])?;
            let ghost pv = p@;
            out.push(p);
            assert(exprs_v(out@) =~= before.push(pv));
            proof {
                match all_answered(env@, self.run(), self.cs(), pass@, all.skip(i + 1)) {
                    Ok(rest) => {
                        assert(before + (seq![pv] + rest) =~= exprs_v(out@) + rest);
                    },
                    Err(_) => {},
                }
            }
        }
        assert(all.skip(n as int) =~= Seq::empty());
        assert(exprs_v(out@) + Seq::<ExprV>::empty() =~= exprs_v(out@));
        Ok(out)
    }

    fn settle(&self, env: &Env<'_>, stmt: &SelectStmt) -> (r: Result<SelectStmt, Error>)
        requires
            self.ok(),
        ensures
            gives(r, settled_select(env@, self.run(), self.cs(), stmt@)),
        decreases usize::MAX - self.depth, 6int, 0nat,
    {
        if !select_has_subquery(stmt) {
            return Ok(clone_select(stmt));
        }
        let quals = outer_qualifiers(stmt);
        let ps = select_parts_of(stmt);
        let out = self.answer_all(env, &Pass::Once(&quals), &ps)?;
        assert(refs_v(ps@).len() == ps@.len());
        Ok(rebuild_select(stmt, &out))
    }

    #[verifier::spinoff_prover]
    #[verifier::rlimit(60)]
    fn recursive(&self, env: &Env<'_>, ctes: &Vec<CteEntry>, at: usize, cte: &Cte) -> (r: Result<SelectOut, Error>)
        requires
            entries_ok(entries_v(ctes@)),
            at <= ctes@.len(),
        ensures
            gives(r, recursive_rows(env@, self.run(), entries_v(ctes@), at as int, cte@)),
            r is Ok ==> fits(r->Ok_0@),
        decreases usize::MAX - self.depth, 6int, 0nat,
    {
        assert(cte@.query.compound.len() == cte.query.compound@.len());
        if cte.query.compound.len() != 1 {
            return Err(sql_lit("CTE recursiva: usa exactamente «semilla UNION [ALL] término»"));
        }
        assert(cte@.query.compound[0] == cte.query.compound@[0]@);
        let keep_all: bool = cte.query.compound[0].op == SetOp::UnionAll;
        let term: &SelectStmt = &cte.query.compound[0].select;
        let core = core_select(&cte.query);
        let seed = self.sub(&env.branch(0), ctes, &core)?;
        let steps = env.branch(1);
        let columns = seed.columns;
        let ghost cols = strings_v(columns@);
        let ghost w = cols.len() as int;
        assert(cols.len() == columns@.len());
        let mut all: Vec<Vec<Value>> = clone_rows(&seed.rows);
        let mut working: Vec<Vec<Value>> = seed.rows;
        let ghost cv = entries_v(ctes@);
        let ghost want = fixpoint(steps@, self.run(), cv, at as int, cte@.name, cols, term@, keep_all, rows_view(all@), rows_view(all@));
        #[verifier::loop_isolation(false)]
        loop
            invariant
                rows_wide(rows_view(all@), w),
                rows_wide(rows_view(working@), w),
                want == fixpoint(steps@, self.run(), cv, at as int, cte@.name, cols, term@, keep_all, rows_view(all@), rows_view(working@)),
            decreases MAX_ROWS - all@.len(),
        {
            let ghost all0 = rows_view(all@);
            assert(all0.len() == all@.len());
            let def = synthetic_cte_def(cte.name.as_str(), &columns);
            let entry = CteEntry { name: cte.name.clone(), def, rows: working };
            let ghost seen = entry@;
            let scope = scope_plus(ctes, at, entry);
            let step = self.sub(&steps.branch(all.len()), &scope, term)?;
            assert(step@.columns.len() == step.columns@.len());
            if step.columns.len() != columns.len() {
                return Err(sql_lit("CTE recursiva: el término tiene distinto número de columnas que la semilla"));
            }
            proof {
                lemma_distinct_wide(step@.rows, w);
            }
            let fresh: Vec<Vec<Value>> = if keep_all {
                step.rows
            } else {
                rows_absent(dedup_preserving(step.rows), &all, false)
            };
            assert(rows_view(fresh@).len() == fresh@.len());
            if fresh.len() == 0 {
                return Ok(SelectOut { columns, rows: all });
            }
            if fresh.len() > MAX_ROWS || all.len() > MAX_ROWS - fresh.len() {
                return Err(sql_lit("CTE recursiva: demasiadas filas (¿recursión sin caso base?)"));
            }
            append_rows(&mut all, &fresh);
            working = fresh;
            assert(rows_wide(rows_view(all@), w));
        }
    }

    #[verifier::spinoff_prover]
    #[verifier::rlimit(40)]
    fn with_scope(&self, stmt: &SelectStmt) -> (r: Result<SelectOut, Error>)
        requires
            self.ok(),
            stmt@.with.len() > 0,
        ensures
            gives(r, select_output(*self.src, self.env@, self.run(), self.find(), self.cs(), stmt@, self.pv())),
            r is Ok ==> fits(r->Ok_0@),
        decreases usize::MAX - self.depth, 7int, 0nat,
    {
        let root = self.env.branch(5);
        let mut scope = clone_entries(self.ctes);
        let n: usize = stmt.with.len();
        let ghost ws = ctes_v(stmt.with@);
        let ghost want = scope_with(root@, self.run(), ws, self.cs(), 0);
        assert(entries_v(scope@).len() == scope@.len());
        for i in 0..n
            invariant
                n == stmt.with@.len(),
                ws == ctes_v(stmt.with@),
                self.ok(),
                stmt@.with == ws,
                ws.len() > 0,
                i <= scope@.len(),
                entries_ok(entries_v(scope@)),
                root@ == branch(self.env@, 5),
                want == scope_with(root@, self.run(), ws, self.cs(), 0),
                want == scope_with(root@, self.run(), ws, entries_v(scope@), i as int),
        {
            assert(ws[i as int] == stmt.with@[i as int]@);
            let cte: &Cte = &stmt.with[i];
            let out = if select_reads(&cte.query, cte.name.as_str()) {
                self.recursive(&root.branch(i), &scope, i, cte)?
            } else {
                self.sub(&root.branch(i), &scope, &cte.query)?
            };
            let entry = entry_of(cte.name.as_str(), out);
            scope = scope_plus(&scope, i, entry);
        }
        let mut main = clone_select(stmt);
        let ghost before = main@;
        main.with = Vec::new();
        assert(main@.with =~= Seq::empty());
        assert(main@ =~= (SelectStmtV { with: Seq::empty(), ..before }));
        self.sub(self.env, &scope, &main)
    }

    #[verifier::spinoff_prover]
    #[verifier::rlimit(40)]
    fn with_derived(&self, stmt: &SelectStmt) -> (r: Result<SelectOut, Error>)
        requires
            self.ok(),
            stmt@.with.len() == 0,
            has_derived(stmt@),
        ensures
            gives(r, select_output(*self.src, self.env@, self.run(), self.find(), self.cs(), stmt@, self.pv())),
            r is Ok ==> fits(r->Ok_0@),
        decreases usize::MAX - self.depth, 7int, 0nat,
    {
        let root = self.env.branch(6);
        let ts = tables_in(stmt);
        let n: usize = ts.len();
        let ghost tv = tables_of(stmt@);
        let ghost want = derived_entries(root@, self.run(), self.cs(), tv, 0);
        let mut entries: Vec<CteEntry> = Vec::new();
        assert(entries_v(entries@) =~= Seq::empty());
        assert(want is Ok ==> Seq::empty() + want->Ok_0 =~= want->Ok_0);
        for i in 0..n
            invariant
                n == ts@.len(),
                tv == table_refs_v(ts@),
                tv == tables_of(stmt@),
                self.ok(),
                stmt@.with.len() == 0,
                has_derived(stmt@),
                entries_ok(entries_v(entries@)),
                root@ == branch(self.env@, 6),
                want == derived_entries(root@, self.run(), self.cs(), tv, 0),
                (match derived_entries(root@, self.run(), self.cs(), tv, i as int) {
                        Ok(rest) => want == Ok::<_, ErrorV>(entries_v(entries@) + rest),
                        Err(e) => want == Err::<Seq<CteEntryV>, ErrorV>(e),
                }),
        {
            assert(tv[i as int] == ts@[i as int]@);
            if let Some(q) = &ts[i].subquery {
                let ghost before = entries_v(entries@);
                let out = self.sub(&root.branch(i), self.ctes, q)?;
                let e = entry_of(ts[i].qualifier(), out);
                let ghost ev = e@;
                entries.push(e);
                assert(entries_v(entries@) =~= before.push(ev));
                proof {
                    match derived_entries(root@, self.run(), self.cs(), tv, i + 1) {
                        Ok(rest) => {
                            assert(before + (seq![ev] + rest) =~= entries_v(entries@) + rest);
                        },
                        Err(_) => {},
                    }
                }
            }
        }
        assert(entries_v(entries@) + Seq::<CteEntryV>::empty() =~= entries_v(entries@));
        let ghost head = entries_v(entries@);
        let m: usize = self.ctes.len();
        let ghost cv = self.cs();
        assert(entries_v(entries@) =~= head + cv.take(0));
        for i in 0..m
            invariant
                m == self.ctes@.len(),
                cv == entries_v(self.ctes@),
                entries_ok(cv),
                entries_ok(entries_v(entries@)),
                entries_v(entries@) == head + cv.take(i as int),
        {
            let ghost before = entries_v(entries@);
            assert(cv[i as int] == self.ctes@[i as int]@);
            entries.push(self.ctes[i].clone());
            assert(entries_v(entries@) =~= before.push(cv[i as int]));
            assert(head + cv.take(i + 1) =~= before.push(cv[i as int]));
        }
        assert(cv.take(m as int) =~= cv);
        let flat = flatten_select(stmt);
        self.sub(self.env, &entries, &flat)
    }

    #[verifier::spinoff_prover]
    #[verifier::rlimit(40)]
    fn compound(&self, stmt: &SelectStmt) -> (r: Result<SelectOut, Error>)
        requires
            self.ok(),
        ensures
            gives(r, compound_output(self.env@, self.run(), self.cs(), stmt@, self.pv())),
            r is Ok ==> fits(r->Ok_0@),
        decreases usize::MAX - self.depth, 6int, 0nat,
    {
        let core = core_select(stmt);
        let lead = self.sub(&self.env.branch(7), self.ctes, &core)?;
        let root = self.env.branch(8);
        let columns = lead.columns;
        let mut rows = lead.rows;
        let w: usize = columns.len();
        assert(strings_v(columns@).len() == w);
        let ghost ps = compound_selects_v(stmt.compound@);
        let ghost want = compound_rows(root@, self.run(), self.cs(), ps, w as nat, rows_view(rows@), 0);
        let ghost lead_rows = rows_view(rows@);
        let n: usize = stmt.compound.len();
        for i in 0..n
            invariant
                n == stmt.compound@.len(),
                ps == compound_selects_v(stmt.compound@),
                stmt@.compound == ps,
                self.ok(),
                w == strings_v(columns@).len(),
                self.run()(branch(self.env@, 7), self.cs(), core_of(stmt@)) == Ok::<SelectOutV, ErrorV>(SelectOutV { columns: strings_v(columns@), rows: lead_rows }),
                root@ == branch(self.env@, 8),
                want == compound_rows(root@, self.run(), self.cs(), ps, w as nat, lead_rows, 0),
                rows_wide(rows_view(rows@), w as int),
                want == compound_rows(root@, self.run(), self.cs(), ps, w as nat, rows_view(rows@), i as int),
        {
            assert(ps[i as int] == stmt.compound@[i as int]@);
            let part = self.sub(&root.branch(i), self.ctes, &stmt.compound[i].select)?;
            assert(part@.columns.len() == part.columns@.len());
            if part.columns.len() != w {
                let a = u64_text(w as u64);
                let b = u64_text(part.columns.len() as u64);
                let head = cat("operador de conjunto: los SELECT tienen distinto número de columnas (", a.as_str());
                let tail = cat3(" vs ", b.as_str(), ")");
                return Err(sql_err(cat(head.as_str(), tail.as_str())));
            }
            let ghost r0 = rows_view(rows@);
            let ghost pr = part@.rows;
            proof {
                lemma_distinct_wide(r0, w as int);
                assert(rows_wide(r0 + pr, w as int));
                lemma_distinct_wide(r0 + pr, w as int);
            }
            match stmt.compound[i].op {
                SetOp::UnionAll => {
                    append_rows(&mut rows, &part.rows);
                },
                SetOp::Union => {
                    append_rows(&mut rows, &part.rows);
                    rows = dedup_preserving(rows);
                },
                SetOp::Intersect => {
                    rows = rows_absent(dedup_preserving(rows), &part.rows, true);
                },
                SetOp::Except => {
                    rows = rows_absent(dedup_preserving(rows), &part.rows, false);
                },
            }
        }
        assert forall|i: int| 0 <= i < rows@.len() implies (#[trigger] rows@[i])@.len() == columns@.len() by {
            assert(rows_view(rows@)[i] == row_view(rows@[i]@));
        }
        let sorted = sort_output(self.env, rows, &stmt.order_by, &columns)?;
        let cut = limit_offset(self.env, sorted, &stmt.limit, &stmt.offset, self.params)?;
        Ok(SelectOut { columns, rows: cut })
    }

    fn all_of(&self, f: &Found) -> (r: Result<Vec<Vec<Value>>, Error>)
        requires
            found_ok(f@),
        ensures
            kept(r, scanned(*self.src, f@), f@.def.columns.len() as int),
    {
        match &f.rows {
            Some(rows) => Ok(clone_rows(rows)),
            None => self.src.scan_rows(&f.def),
        }
    }

    fn first(&self, f: &Found, q: &str, stmt: &SelectStmt) -> (r: Result<Vec<Vec<Value>>, Error>)
        requires
            found_ok(f@),
        ensures
            kept(r, first_rows(*self.src, self.env@, f@, q@, stmt@, self.pv()), f@.def.columns.len() as int),
    {
        assert(stmt@.joins.len() == stmt.joins@.len());
        if stmt.joins.len() == 0 && f.rows.is_none() {
            let a = choose_access(self.env, q, &f.def, stmt, self.params)?;
            return reach(self.src, &f.def, &a);
        }
        let rows = self.all_of(f)?;
        if stmt.joins.len() == 0 {
            return Ok(rows);
        }
        let cs = conditions_of(&stmt.where_clause);
        prefilter(&self.env.branch(10), rows, q, &f.def, &cs, self.params)
    }

    #[verifier::spinoff_prover]
    #[verifier::rlimit(60)]
    fn join_all(&self, stmt: &SelectStmt, schema: &mut QuerySchema, first: Vec<Vec<Value>>) -> (r: Result<Vec<Vec<Value>>, Error>)
        requires
            self.ok(),
            rows_fit(old(schema), first@),
        ensures
            (match all_joined(*self.src, self.env@, self.find(), stmt@, old(schema)@, rows_view(first@), self.pv(), 0) {
                    Ok((s, rows)) => r is Ok && final(schema)@ == s && rows_view(r->Ok_0@) == rows && rows_fit(final(schema), r->Ok_0@),
                    Err(e) => r is Err && r->Err_0@ == e,
            }),
        decreases usize::MAX - self.depth, 6int, 0nat,
    {
        let mut rows = first;
        let n: usize = stmt.joins.len();
        let cs = conditions_of(&stmt.where_clause);
        let ghost want = all_joined(*self.src, self.env@, self.find(), stmt@, old(schema)@, rows_view(first@), self.pv(), 0);
        for i in 0..n
            invariant
                n == stmt.joins@.len(),
                n == stmt@.joins.len(),
                self.ok(),
                refs_v(cs@) == conditions(stmt@.where_clause),
                rows_fit(schema, rows@),
                want == all_joined(*self.src, self.env@, self.find(), stmt@, old(schema)@, rows_view(first@), self.pv(), 0),
                want == all_joined(*self.src, self.env@, self.find(), stmt@, schema@, rows_view(rows@), self.pv(), i as int),
        {
            assert(stmt@.joins[i as int] == stmt.joins@[i as int]@);
            let join: &Join = &stmt.joins[i];
            let ghost s0 = schema@;
            let f = self.lookup(i + 1, &join.table)?;
            let found = self.all_of(&f)?;
            let right = if join.kind == JoinKind::Inner {
                prefilter(&self.env.branch(11).branch(i), found, join.table.qualifier(), &f.def, &cs, self.params)?
            } else {
                found
            };
            let width: usize = f.def.columns.len();
            assert(f@.def.columns.len() == width);
            schema.push(join.table.qualifier(), clone_table_def(&f.def))?;
            no_aggregates(&join.on, "ON")?;
            validate_columns(&join.on, schema)?;
            proof {
                let lv = rows_view(rows@);
                assert forall|k: int| 0 <= k < lv.len() implies (#[trigger] lv[k]).len() == row_width(s0.tables) by {
                    assert(lv[k] == row_view(rows@[k]@));
                }
            }
            rows = join_rows(&self.env.branch(12).branch(i), &rows, &right, join.kind, &join.on, schema, width, self.params)?;
            proof {
                let lv = rows_view(rows@);
                assert forall|k: int| 0 <= k < rows@.len() implies (#[trigger] rows@[k])@.len() == row_width(schema@.tables) by {
                    assert(lv[k] == row_view(rows@[k]@));
                }
            }
        }
        Ok(rows)
    }

    fn value_on(&self, env: &Env, e: &Expr, schema: &QuerySchema, row: &Vec<Value>) -> (r: Result<Value, Error>)
        requires
            self.ok(),
            row_fits(Some((schema, row))),
        ensures
            gives(r, row_value(env@, self.run(), self.cs(), e@, schema@, row_view(row@), self.pv())),
        decreases usize::MAX - self.depth, 6int, 0nat,
    {
        if expr_has_subquery(e) {
            let x = self.answer(&env.branch(0), &Pass::PerRow(schema, row), e)?;
            eval(&env.branch(1), &x, Some((schema, row)), self.params)
        } else {
            eval(&env.branch(1), e, Some((schema, row)), self.params)
        }
    }

    #[verifier::spinoff_prover]
    fn filter(&self, cond: &Expr, schema: &QuerySchema, rows: &Vec<Vec<Value>>) -> (r: Result<Vec<Vec<Value>>, Error>)
        requires
            self.ok(),
            rows_fit(schema, rows@),
        ensures
            (match filtered(self.env@, self.run(), self.cs(), Some(cond@), schema@, rows_view(rows@), self.pv()) {
                    Ok(s) => r is Ok && rows_view(r->Ok_0@) == s && rows_fit(schema, r->Ok_0@),
                    Err(e) => r is Err && r->Err_0@ == e,
            }),
        decreases usize::MAX - self.depth, 7int, 0nat,
    {
        no_aggregates(cond, "WHERE")?;
        validate_columns(cond, schema)?;
        let n: usize = rows.len();
        let ghost rv = rows_view(rows@);
        let root = self.env.branch(1);
        let ghost want = where_rows(root@, self.run(), self.cs(), cond@, schema@, rv, self.pv(), 0);
        let mut out: Vec<Vec<Value>> = Vec::new();
        assert(rows_view(out@) =~= Seq::empty());
        assert(want is Ok ==> Seq::empty() + want->Ok_0 =~= want->Ok_0);
        for i in 0..n
            invariant
                n == rows@.len(),
                rv == rows_view(rows@),
                self.ok(),
                rows_fit(schema, rows@),
                rows_fit(schema, out@),
                filtered(self.env@, self.run(), self.cs(), Some(cond@), schema@, rv, self.pv()) == want,
                (match where_rows(root@, self.run(), self.cs(), cond@, schema@, rv, self.pv(), i as int) {
                        Ok(rest) => want == Ok::<_, ErrorV>(rows_view(out@) + rest),
                        Err(e) => want == Err::<Seq<Seq<ValueV>>, ErrorV>(e),
                }),
        {
            assert(rv[i as int] == row_view(rows@[i as int]@));
            let ghost before = rows_view(out@);
            let v = self.value_on(&root.branch(i), cond, schema, &rows[i])?;
            if truthy(&v)? {
                let row = clone_row(&rows[i]);
                assert(row_view(row@).len() == row@.len());
                assert(rv[i as int].len() == rows@[i as int]@.len());
                out.push(row);
                assert(rows_view(out@) =~= before.push(rv[i as int]));
                proof {
                    match where_rows(root@, self.run(), self.cs(), cond@, schema@, rv, self.pv(), i + 1) {
                        Ok(rest) => {
                            assert(before + (seq![rv[i as int]] + rest) =~= rows_view(out@) + rest);
                        },
                        Err(_) => {},
                    }
                }
            }
        }
        assert(rows_view(out@) + Seq::<Seq<ValueV>>::empty() =~= rows_view(out@));
        Ok(out)
    }

    #[verifier::spinoff_prover]
    #[verifier::rlimit(40)]
    fn project_row(&self, env: &Env, items: &Vec<SelectItem>, star: &Vec<usize>, schema: &QuerySchema, row: &Vec<Value>) -> (r: Result<Vec<Value>, Error>)
        requires
            self.ok(),
            row_fits(Some((schema, row))),
            ints(star@) == star_from(schema@.tables, 0),
            in_range(star@, row@.len() as int),
        ensures
            (match projected_row(env@, self.run(), self.cs(), select_items_v(items@), schema@, row_view(row@), self.pv(), 0) {
                    Ok(vs) => r is Ok && row_view(r->Ok_0@) == vs && vs.len() == output_width(select_items_v(items@), star@.len(), 0),
                    Err(e) => r is Err && r->Err_0@ == e,
            }),
        decreases usize::MAX - self.depth, 7int, 0nat,
    {
        let n: usize = items.len();
        let ghost its = select_items_v(items@);
        let ghost rv = row_view(row@);
        let ghost want = projected_row(env@, self.run(), self.cs(), its, schema@, rv, self.pv(), 0);
        let ghost total = output_width(its, star@.len(), 0);
        let mut out: Vec<Value> = Vec::new();
        assert(row_view(out@) =~= Seq::empty());
        assert(want is Ok ==> Seq::empty() + want->Ok_0 =~= want->Ok_0);
        for j in 0..n
            invariant
                n == items@.len(),
                its == select_items_v(items@),
                its.len() == n,
                rv == row_view(row@),
                self.ok(),
                row_fits(Some((schema, row))),
                ints(star@) == star_from(schema@.tables, 0),
                in_range(star@, row@.len() as int),
                total == output_width(its, star@.len(), 0),
                out@.len() + output_width(its, star@.len(), j as int) == total,
                want == projected_row(env@, self.run(), self.cs(), its, schema@, rv, self.pv(), 0),
                (match projected_row(env@, self.run(), self.cs(), its, schema@, rv, self.pv(), j as int) {
                        Ok(rest) => want == Ok::<_, ErrorV>(row_view(out@) + rest),
                        Err(e) => want == Err::<Seq<ValueV>, ErrorV>(e),
                }),
        {
            assert(its[j as int] == items@[j as int]@);
            let ghost before = row_view(out@);
            match &items[j] {
                SelectItem::Star => {
                    let vs = pick_values(row, star);
                    let ghost vv = row_view(vs@);
                    push_values(&mut out, vs);
                    proof {
                        match projected_row(env@, self.run(), self.cs(), its, schema@, rv, self.pv(), j + 1) {
                            Ok(rest) => {
                                assert(before + (vv + rest) =~= row_view(out@) + rest);
                            },
                            Err(_) => {},
                        }
                    }
                },
                SelectItem::Expr { expr, alias: _ } => {
                    let v = self.value_on(&env.branch(j), expr, schema, row)?;
                    let ghost vv = v@;
                    out.push(v);
                    assert(row_view(out@) =~= before.push(vv));
                    proof {
                        match projected_row(env@, self.run(), self.cs(), its, schema@, rv, self.pv(), j + 1) {
                            Ok(rest) => {
                                assert(before + (seq![vv] + rest) =~= row_view(out@) + rest);
                            },
                            Err(_) => {},
                        }
                    }
                },
            }
        }
        assert(row_view(out@) + Seq::<ValueV>::empty() =~= row_view(out@));
        Ok(out)
    }

    #[verifier::spinoff_prover]
    #[verifier::rlimit(60)]
    fn plain(&self, stmt: &SelectStmt, schema: &QuerySchema, rows: Vec<Vec<Value>>) -> (r: Result<SelectOut, Error>)
        requires
            self.ok(),
            rows_fit(schema, rows@),
        ensures
            gives(r, plain_output(self.env@, self.run(), self.cs(), stmt@, schema@, rows_view(rows@), self.pv())),
            r is Ok ==> fits(r->Ok_0@),
        decreases usize::MAX - self.depth, 8int, 0nat,
    {
        let sorted = sort_rows(self.env, stmt, schema, rows, self.params)?;
        let ghost w = row_width(schema@.tables) as int;
        proof {
            let sv = rows_view(sorted@);
            assert forall|k: int| 0 <= k < sv.len() implies (#[trigger] sv[k]).len() == w by {
                assert(sv[k] == row_view(sorted@[k]@));
            }
        }
        let cut = if stmt.distinct {
            sorted
        } else {
            limit_offset(self.env, sorted, &stmt.limit, &stmt.offset, self.params)?
        };
        check_items(&stmt.projection, schema)?;
        let (star, star_names) = star_columns(schema);
        let columns = output_names(&stmt.projection, &star_names);
        let ghost its = select_items_v(stmt.projection@);
        proof {
            lemma_names_width(its, strings_v(star_names@), 0);
            assert(strings_v(columns@).len() == columns@.len());
            assert(strings_v(star_names@).len() == star@.len());
        }
        let n: usize = cut.len();
        let ghost rv = rows_view(cut@);
        let root = self.env.branch(3);
        let ghost want = projected(root@, self.run(), self.cs(), its, schema@, rv, self.pv(), 0);
        let ghost cw = columns@.len() as int;
        let mut out: Vec<Vec<Value>> = Vec::new();
        assert(rows_view(out@) =~= Seq::empty());
        assert(want is Ok ==> Seq::empty() + want->Ok_0 =~= want->Ok_0);
        #[verifier::loop_isolation(false)]
        for i in 0..n
            invariant
                rows_wide(rv, w),
                rows_wide(rows_view(out@), cw),
                (match projected(root@, self.run(), self.cs(), its, schema@, rv, self.pv(), i as int) {
                        Ok(rest) => want == Ok::<_, ErrorV>(rows_view(out@) + rest),
                        Err(e) => want == Err::<Seq<Seq<ValueV>>, ErrorV>(e),
                }),
        {
            assert(rv[i as int] == row_view(cut@[i as int]@));
            assert(rv[i as int].len() == w);
            let ghost before = rows_view(out@);
            let row = self.project_row(&root.branch(i), &stmt.projection, &star, schema, &cut[i])?;
            let ghost nv = row_view(row@);
            out.push(row);
            assert(rows_view(out@) =~= before.push(nv));
            proof {
                match projected(root@, self.run(), self.cs(), its, schema@, rv, self.pv(), i + 1) {
                    Ok(rest) => {
                        assert(before + (seq![nv] + rest) =~= rows_view(out@) + rest);
                    },
                    Err(_) => {},
                }
            }
        }
        assert(rows_view(out@) + Seq::<Seq<ValueV>>::empty() =~= rows_view(out@));
        if stmt.distinct {
            proof {
                lemma_distinct_wide(rows_view(out@), cw);
            }
            let last = limit_offset(self.env, dedup_preserving(out), &stmt.limit, &stmt.offset, self.params)?;
            return Ok(SelectOut { columns, rows: last });
        }
        Ok(SelectOut { columns, rows: out })
    }

    #[verifier::spinoff_prover]
    #[verifier::rlimit(40)]
    fn aggregate(&self, stmt: &SelectStmt, schema: &QuerySchema, rows: &Vec<Vec<Value>>) -> (r: Result<SelectOut, Error>)
        requires
            rows_fit(schema, rows@),
        ensures
            gives(r, aggregate_output(branch(self.env@, 14), stmt@, schema@, rows_view(rows@), self.pv())),
            r is Ok ==> fits(r->Ok_0@),
    {
        let root = self.env.branch(14);
        let (columns, row) = aggregate_projection(&root.branch(0), &stmt.projection, schema, rows, self.params)?;
        proof {
            lemma_aggregate_width(branch(root@, 0), stmt@.projection, schema@, rows_view(rows@), self.pv(), 0);
            assert(strings_v(columns@).len() == row_view(row@).len());
        }
        if let Some(h) = &stmt.having {
            validate_columns(h, schema)?;
            let x = fold_aggregates(&root.branch(1).branch(0), h, schema, rows, self.params)?;
            let v = eval_const(&root.branch(1).branch(1), &x, self.params)?;
            if !truthy(&v)? {
                let none: Vec<Vec<Value>> = Vec::new();
                assert(rows_view(none@) =~= Seq::empty());
                return Ok(SelectOut { columns, rows: none });
            }
        }
        let mut one: Vec<Vec<Value>> = Vec::new();
        let ghost nv = row_view(row@);
        one.push(row);
        assert(rows_view(one@) =~= seq![nv]);
        assert(rows_wide(rows_view(one@), nv.len() as int));
        let cut = limit_offset(&root, one, &stmt.limit, &stmt.offset, self.params)?;
        Ok(SelectOut { columns, rows: cut })
    }

    #[verifier::spinoff_prover]
    #[verifier::rlimit(40)]
    fn simple(&self, stmt: &SelectStmt) -> (r: Result<SelectOut, Error>)
        requires
            self.ok(),
        ensures
            gives(r, simple_output(*self.src, self.env@, self.run(), self.find(), self.cs(), stmt@, self.pv())),
            r is Ok ==> fits(r->Ok_0@),
        decreases usize::MAX - self.depth, 9int, 0nat,
    {
        let t: &TableRef = match &stmt.from {
            Some(t) => t,
            None => {
                return run_select_no_from(self.env, stmt, self.params);
            },
        };
        let f = self.lookup(0, t)?;
        let mut schema = QuerySchema::single(t.qualifier(), clone_table_def(&f.def));
        assert(schema@ =~= one_table(qualifier_of(t@), f@.def));
        precompute_bm25(self.src, &self.env.branch(19), &mut schema, stmt, self.params)?;
        let first = self.first(&f, t.qualifier(), stmt)?;
        proof {
            let fv = rows_view(first@);
            assert forall|k: int| 0 <= k < first@.len() implies (#[trigger] first@[k])@.len() == row_width(schema@.tables) by {
                assert(fv[k] == row_view(first@[k]@));
            }
        }
        let both = self.join_all(stmt, &mut schema, first)?;
        let left = match &stmt.where_clause {
            Some(c) => self.filter(c, &schema, &both)?,
            None => both,
        };
        self.finish_rows(stmt, &schema, left)
    }

    fn finish_rows(&self, stmt: &SelectStmt, schema: &QuerySchema, rows: Vec<Vec<Value>>) -> (r: Result<SelectOut, Error>)
        requires
            self.ok(),
            rows_fit(schema, rows@),
        ensures
            gives(r, rows_output(self.env@, self.run(), self.cs(), stmt@, schema@, rows_view(rows@), self.pv())),
            r is Ok ==> fits(r->Ok_0@),
        decreases usize::MAX - self.depth, 8int, 1nat,
    {
        assert(stmt@.group_by.len() == stmt.group_by@.len());
        if stmt.group_by.len() > 0 {
            return run_grouped(&self.env.branch(15), stmt, schema, &rows, self.params);
        }
        if has_any_aggregate(stmt) {
            return self.aggregate(stmt, schema, &rows);
        }
        if stmt.having.is_some() {
            return Err(sql_lit("HAVING requiere GROUP BY o agregados"));
        }
        if has_any_window(stmt) {
            return run_windowed(&self.env.branch(16), stmt, schema, &rows, self.params);
        }
        self.plain(stmt, schema, rows)
    }

    #[verifier::spinoff_prover]
    #[verifier::rlimit(40)]
    fn select(&self, stmt: &SelectStmt) -> (r: Result<SelectOut, Error>)
        requires
            self.ok(),
        ensures
            gives(r, queried(*self.src, self.env@, self.scope(), stmt@, self.pv())),
            r is Ok ==> fits(r->Ok_0@),
        decreases usize::MAX - self.depth, 10int, 0nat,
    {
        assert(stmt@.with.len() == stmt.with@.len());
        if stmt.with.len() > 0 {
            return self.with_scope(stmt);
        }
        if select_has_derived(stmt) {
            return self.with_derived(stmt);
        }
        let st = self.settle(&self.env.branch(4), stmt)?;
        assert(st@.compound.len() == st.compound@.len());
        if st.compound.len() > 0 {
            return self.compound(&st);
        }
        self.simple(&st)
    }

}

proof fn lemma_aggregate_width(env: EnvV, items: Seq<SelectItemV>, s: SchemaV, rows: Seq<Seq<ValueV>>, params: Seq<ValueV>, i: int)
    requires
        aggregate_items(env, items, s, rows, params, i) is Ok,
    ensures
        ({
                let out = aggregate_items(env, items, s, rows, params, i)->Ok_0;
                out.0.len() == out.1.len()
        }),
    decreases items.len() - i,
{
    if 0 <= i < items.len() {
        lemma_aggregate_width(env, items, s, rows, params, i + 1);
    }
}

/// Runs a SELECT on a source; names are tables of the source, not views.
pub fn run_select<S: DataSource>(src: &S, env: &Env, stmt: &SelectStmt, params: &Vec<Value>) -> (r: Result<SelectOut, Error>)
    ensures
        gives(r, queried(*src, env@, top_scope(false), stmt@, row_view(params@))),
        r is Ok ==> fits(r->Ok_0@),
{
    run_top(src, env, stmt, params, false)
}

/// Runs a SELECT on a source and its views.
pub fn run_query<S: DataSource>(src: &S, env: &Env, stmt: &SelectStmt, params: &Vec<Value>) -> (r: Result<SelectOut, Error>)
    ensures
        gives(r, queried(*src, env@, top_scope(true), stmt@, row_view(params@))),
        r is Ok ==> fits(r->Ok_0@),
{
    run_top(src, env, stmt, params, true)
}

fn run_top<S: DataSource>(src: &S, env: &Env, stmt: &SelectStmt, params: &Vec<Value>, views: bool) -> (r: Result<SelectOut, Error>)
    ensures
        gives(r, queried(*src, env@, top_scope(views), stmt@, row_view(params@))),
        r is Ok ==> fits(r->Ok_0@),
{
    let ctes: Vec<CteEntry> = Vec::new();
    let resolving: Vec<String> = Vec::new();
    assert(entries_v(ctes@) =~= Seq::empty());
    assert(strings_v(resolving@) =~= Seq::empty());
    let m = Machine { src, env, params, ctes: &ctes, views, resolving: &resolving, depth: 0 };
    assert(m.scope() == top_scope(views));
    m.select(stmt)
}

// --- streaming ---

/// A SELECT that can be answered row by row: columns of one table, nothing else.
#[derive(Debug)]
pub struct StreamSelect {
    pub def: TableDef,
    /// The names of the output columns.
    pub columns: Vec<String>,
    /// The column of the table for each output column.
    pub cols: Vec<usize>,
    pub offset: usize,
    /// The largest number where there is no limit.
    pub limit: usize,
}

#[verifier::ext_equal]
pub ghost struct StreamSelectV {
    pub def: TableDefV,
    pub columns: Seq<Seq<char>>,
    pub cols: Seq<int>,
    pub offset: usize,
    pub limit: usize,
}

impl View for StreamSelect {
    type V = StreamSelectV;

    open spec fn view(&self) -> StreamSelectV {
        StreamSelectV { def: self.def@, columns: strings_v(self.columns@), cols: ints(self.cols@), offset: self.offset, limit: self.limit }
    }
}

/// The names and places of the columns of the items from `i` on, where all are columns
/// of the table.
pub open spec fn stream_columns(def: TableDefV, q: Seq<char>, items: Seq<SelectItemV>, i: int) -> Option<(Seq<Seq<char>>, Seq<int>)>
    decreases items.len() - i,
{
    if i < 0 || i >= items.len() {
        Some((Seq::empty(), Seq::empty()))
    } else {
        match stream_item(def, q, items[i]) {
            None => None,
            Some((names, cols)) => match stream_columns(def, q, items, i + 1) {
                None => None,
                Some((ns, cs)) => Some((names + ns, cols + cs)),
            },
        }
    }
}

pub open spec fn stream_item(def: TableDefV, q: Seq<char>, item: SelectItemV) -> Option<(Seq<Seq<char>>, Seq<int>)> {
    match item {
        SelectItemV::Star => Some((star_names_from(one_table(q, def).tables, 0), star_from(one_table(q, def).tables, 0))),
        SelectItemV::Expr { expr, alias } => match expr {
            ExprV::Column { table, name } => if table is Some && table != Some(q) {
                None
            } else {
                match column_named(def.columns, name, 0) {
                    None => None,
                    Some(c) => Some((seq![match alias {
                                    Some(a) => a,
                                    None => name,
                            }], seq![c])),
                }
            },
            _ => None,
        },
    }
}

/// The plan to stream a SELECT, where it can be streamed.
pub open spec fn stream_plan<S: DataSource>(src: S, env: EnvV, stmt: SelectStmtV, params: Seq<ValueV>) -> Result<Option<StreamSelectV>, ErrorV> {
    match stmt.from {
        None => Ok(None),
        Some(t) => if stmt.joins.len() > 0 || stmt.where_clause is Some || stmt.group_by.len() > 0 || stmt.having is Some || stmt.order_by.len() > 0 || stmt.distinct || stmt.compound.len() > 0 || stmt.with.len() > 0 {
            Ok(None)
        } else {
            match src.find_table(t.name) {
                Err(e) => Err(e),
                Ok(d) => {
                    match d {
                        None => Ok(None),
                        Some(def) => match stream_columns(def, qualifier_of(t), stmt.projection, 0) {
                            None => Ok(None),
                            Some((columns, cols)) => {
                                match bounds(env, stmt.limit, stmt.offset, params) {
                                    Err(e) => Err(e),
                                    Ok(b) => {
                                        Ok(Some(StreamSelectV { def, columns, cols, offset: b.0 as usize, limit: match b.1 {
                                                        Some(k) => k as usize,
                                                        None => usize::MAX,
                                                    } }))
                                    },
                                }
                            },
                        },
                    }
                },
            }
        },
    }
}

#[verifier::spinoff_prover]
#[verifier::rlimit(40)]
fn stream_items(def: &TableDef, q: &str, items: &Vec<SelectItem>) -> (r: Option<(Vec<String>, Vec<usize>)>)
    requires
        def_ok(def@),
    ensures
        (match stream_columns(def@, q@, select_items_v(items@), 0) {
                Some((names, cols)) => r is Some && strings_v((r->0).0@) == names && ints((r->0).1@) == cols,
                None => r is None,
        }),
{
    let schema = QuerySchema::single(q, clone_table_def(def));
    assert(schema@ =~= one_table(q@, def@));
    let (star, star_names) = star_columns(&schema);
    let n: usize = items.len();
    let ghost its = select_items_v(items@);
    let ghost want = stream_columns(def@, q@, its, 0);
    let mut names: Vec<String> = Vec::new();
    let mut cols: Vec<usize> = Vec::new();
    assert(strings_v(names@) =~= Seq::empty());
    assert(ints(cols@) =~= Seq::empty());
    assert(want is Some ==> Seq::empty() + (want->0).0 =~= (want->0).0);
    assert(want is Some ==> Seq::empty() + (want->0).1 =~= (want->0).1);
    for i in 0..n
        invariant
            n == items@.len(),
            its == select_items_v(items@),
            ints(star@) == star_from(one_table(q@, def@).tables, 0),
            strings_v(star_names@) == star_names_from(one_table(q@, def@).tables, 0),
            want == stream_columns(def@, q@, its, 0),
            (match stream_columns(def@, q@, its, i as int) {
                    Some((ns, cs)) => want == Some((strings_v(names@) + ns, ints(cols@) + cs)),
                    None => want is None,
            }),
    {
        assert(its[i as int] == items@[i as int]@);
        let ghost n0 = strings_v(names@);
        let ghost c0 = ints(cols@);
        let ghost rest = stream_columns(def@, q@, its, i + 1);
        match &items[i] {
            SelectItem::Star => {
                crate::exec::output::push_strings(&mut names, &star_names);
                push_places(&mut cols, &star);
                proof {
                    if rest is Some {
                        assert(n0 + (strings_v(star_names@) + (rest->0).0) =~= strings_v(names@) + (rest->0).0);
                        assert(c0 + (ints(star@) + (rest->0).1) =~= ints(cols@) + (rest->0).1);
                    }
                }
            },
            SelectItem::Expr { expr, alias } => match expr {
                Expr::Column { table, name } => {
                    if let Some(t) = table {
                        if !str_eq(t.as_str(), q) {
                            return None;
                        }
                    }
                    let c: usize = match find_column(&def.columns, name.as_str()) {
                        Some(c) => c,
                        None => {
                            return None;
                        },
                    };
                    let shown: String = match alias {
                        Some(a) => a.clone(),
                        None => name.clone(),
                    };
                    let ghost sv = shown@;
                    names.push(shown);
                    cols.push(c);
                    assert(strings_v(names@) =~= n0.push(sv));
                    assert(ints(cols@) =~= c0.push(c as int));
                    proof {
                        if rest is Some {
                            assert(n0 + (seq![sv] + (rest->0).0) =~= strings_v(names@) + (rest->0).0);
                            assert(c0 + (seq![c as int] + (rest->0).1) =~= ints(cols@) + (rest->0).1);
                        }
                    }
                },
                _ => {
                    return None;
                },
            },
        }
    }
    assert(strings_v(names@) + Seq::<Seq<char>>::empty() =~= strings_v(names@));
    assert(ints(cols@) + Seq::<int>::empty() =~= ints(cols@));
    Some((names, cols))
}

fn push_places(out: &mut Vec<usize>, more: &Vec<usize>)
    ensures
        ints(final(out)@) == ints(old(out)@) + ints(more@),
{
    let n: usize = more.len();
    let ghost start = ints(out@);
    let ghost mv = ints(more@);
    assert(ints(out@) =~= start + mv.take(0));
    for i in 0..n
        invariant
            n == more@.len(),
            mv == ints(more@),
            start == ints(old(out)@),
            ints(out@) == start + mv.take(i as int),
    {
        let ghost before = ints(out@);
        out.push(more[i]);
        assert(ints(out@) =~= before.push(mv[i as int]));
        assert(start + mv.take(i + 1) =~= before.push(mv[i as int]));
    }
    assert(mv.take(n as int) =~= mv);
}

#[verifier::spinoff_prover]
pub fn stream_select<S: DataSource>(src: &S, env: &Env, stmt: &SelectStmt, params: &Vec<Value>) -> (r: Result<Option<StreamSelect>, Error>)
    ensures
        (match stream_plan(*src, env@, stmt@, row_view(params@)) {
                Ok(Some(p)) => r is Ok && r->Ok_0 is Some && (r->Ok_0)->0@ == p,
                Ok(None) => r is Ok && r->Ok_0 is None,
                Err(e) => r is Err && r->Err_0@ == e,
        }),
{
    let t: &TableRef = match &stmt.from {
        Some(t) => t,
        None => {
            return Ok(None);
        },
    };
    assert(stmt@.joins.len() == stmt.joins@.len() && stmt@.group_by.len() == stmt.group_by@.len() && stmt@.order_by.len() == stmt.order_by@.len() && stmt@.compound.len() == stmt.compound@.len() && stmt@.with.len() == stmt.with@.len());
    if stmt.joins.len() > 0 || stmt.where_clause.is_some() || stmt.group_by.len() > 0 || stmt.having.is_some() || stmt.order_by.len() > 0 || stmt.distinct || stmt.compound.len() > 0 || stmt.with.len() > 0 {
        return Ok(None);
    }
    let def = match src.table(t.name.as_str())? {
        Some(d) => d,
        None => {
            return Ok(None);
        },
    };
    match stream_items(&def, t.qualifier(), &stmt.projection) {
        None => Ok(None),
        Some((columns, cols)) => {
            let (offset, keep) = crate::exec::rows::limit_bounds(env, &stmt.limit, &stmt.offset, params)?;
            let limit: usize = match keep {
                Some(k) => k,
                None => usize::MAX,
            };
            Ok(Some(StreamSelect { def, columns, cols, offset, limit }))
        },
    }
}

} // verus!
