//! Changing rows: the constraints of a table, the rows that a condition selects, the
//! values that assignments give, and the rows that RETURNING shows.
use vstd::prelude::*;

use crate::catalog::{clone_table_def, TableDef, TableDefV};
#[allow(unused_imports)]
use crate::catalog::strings_v;
use crate::error::{sql_err, sql_lit, Error, ErrorV};
#[allow(unused_imports)]
use crate::error::{gives, sql_error};
use crate::exec::check::{no_aggregates, validate_columns};
#[allow(unused_imports)]
use crate::exec::check::{checked, valid_columns, without_aggregates};
use crate::exec::eval::{eval, eval_const};
#[allow(unused_imports)]
use crate::exec::eval::value_of;
#[allow(unused_imports)]
use crate::exec::joins::one_table;
use crate::exec::ops::{truthy, Env, EnvV};
#[allow(unused_imports)]
use crate::exec::ops::branch;
#[allow(unused_imports)]
use crate::exec::ops::truth;
use crate::exec::output::{output_names, pick_values, push_values, star_columns, SelectOut, SelectOutV};
#[allow(unused_imports)]
use crate::exec::output::{fits, ints, lemma_names_width, names_from, output_width, star_from, star_names_from, values_at};
use crate::exec::plan::{find_place, fts_plan, index_eq_plan, index_range_plan, index_values, point_lookup_key, range_rows, Access, AccessV};
#[allow(unused_imports)]
use crate::exec::plan::{decided, equal_plan, key_values, match_access, opt_ref, place_named, point_key, range_access, range_plan};
#[allow(unused_imports)]
use crate::exec::rows::{in_range, rows_wide};
use crate::exec::schema::QuerySchema;
#[allow(unused_imports)]
use crate::exec::schema::{def_ok, row_fits, row_width, SchemaV};
use crate::exec::write::{col_index, subst_expr};
#[allow(unused_imports)]
use crate::exec::write::{opt_v, place_of_column, with_rows};
use crate::reals::RealTable;
#[allow(unused_imports)]
use crate::reals::RealTableV;
use crate::record::{clone_row, Value, ValueV};
#[allow(unused_imports)]
use crate::record::{row_view, rows_view};
use crate::sql::ast::{clone_expr, Expr, ExprV, SelectItem, SelectItemV, SelectStmtV, Stmt, StmtV};
#[allow(unused_imports)]
use crate::sql::ast::{exprs_v, select_items_v, string_expr_pairs_v};
#[allow(unused_imports)]
use crate::sql::grammar::parsed;
use crate::sql::parser::parse;
#[allow(unused_imports)]
use crate::sql::walk::refs_v;
use crate::text::cat;

verus! {

// --- CHECK ---

/// The expression of a CHECK that is kept as text.
pub open spec fn check_expr(text: Seq<char>, reals: RealTableV) -> Result<ExprV, ErrorV> {
    match parsed("SELECT "@ + text, reals) {
        Err(e) => Err(e),
        Ok(stmt) => {
            match stmt {
                StmtV::Select(s) => first_expr(s),
                _ => Err(not_a_check()),
            }
        },
    }
}

pub open spec fn first_expr(s: SelectStmtV) -> Result<ExprV, ErrorV> {
    if s.projection.len() == 0 {
        Err(not_a_check())
    } else {
        match s.projection[0] {
            SelectItemV::Expr { expr, alias: _ } => Ok(expr),
            SelectItemV::Star => Err(not_a_check()),
        }
    }
}

pub open spec fn not_a_check() -> ErrorV {
    sql_error("CHECK debe ser una expresión"@)
}

/// The expressions of the CHECKs from `i` on.
pub open spec fn check_exprs(texts: Seq<Seq<char>>, reals: RealTableV, i: int) -> Result<Seq<ExprV>, ErrorV>
    decreases texts.len() - i,
{
    if i < 0 || i >= texts.len() {
        Ok(Seq::empty())
    } else {
        match check_expr(texts[i], reals) {
            Err(e) => Err(e),
            Ok(e) => {
                match check_exprs(texts, reals, i + 1) {
                    Err(e) => Err(e),
                    Ok(rest) => {
                        Ok(seq![e] + rest)
                    },
                }
            },
        }
    }
}

fn parse_check(text: &str, reals: &RealTable) -> (r: Result<Expr, Error>)
    ensures
        gives(r, check_expr(text@, reals@)),
{
    let sql = cat("SELECT ", text);
    match parse(sql.as_str(), reals)? {
        Stmt::Select(s) => {
            assert(s@.projection.len() == s.projection@.len());
            if s.projection.len() == 0 {
                return Err(sql_lit("CHECK debe ser una expresión"));
            }
            assert(s@.projection[0] == s.projection@[0]@);
            match &s.projection[0] {
                SelectItem::Expr { expr, alias: _ } => Ok(clone_expr(expr)),
                SelectItem::Star => Err(sql_lit("CHECK debe ser una expresión")),
            }
        },
        _ => Err(sql_lit("CHECK debe ser una expresión")),
    }
}

/// The CHECKs of a table.
pub fn parse_checks(def: &TableDef, reals: &RealTable) -> (r: Result<Vec<Expr>, Error>)
    ensures
        (match check_exprs(def@.checks, reals@, 0) {
                Ok(es) => r is Ok && exprs_v(r->Ok_0@) == es,
                Err(e) => r is Err && r->Err_0@ == e,
        }),
{
    let n: usize = def.checks.len();
    let ghost ts = def@.checks;
    let ghost whole = check_exprs(ts, reals@, 0);
    let mut out: Vec<Expr> = Vec::new();
    assert(exprs_v(out@) =~= Seq::empty());
    assert(whole is Ok ==> Seq::empty() + whole->Ok_0 =~= whole->Ok_0);
    for i in 0..n
        invariant
            n == def.checks@.len(),
            ts == def@.checks,
            whole == check_exprs(ts, reals@, 0),
            (match check_exprs(ts, reals@, i as int) {
                    Ok(rest) => whole == Ok::<_, ErrorV>(exprs_v(out@) + rest),
                    Err(e) => whole == Err::<Seq<ExprV>, ErrorV>(e),
            }),
    {
        assert(ts[i as int] == def.checks@[i as int]@);
        let ghost start = exprs_v(out@);
        let e = parse_check(def.checks[i].as_str(), reals)?;
        let ghost ev = e@;
        out.push(e);
        assert(exprs_v(out@) =~= start.push(ev));
        proof {
            match check_exprs(ts, reals@, i + 1) {
                Ok(rest) => {
                    assert(start + (seq![ev] + rest) =~= exprs_v(out@) + rest);
                },
                Err(_) => {},
            }
        }
    }
    assert(exprs_v(out@) + Seq::<ExprV>::empty() =~= exprs_v(out@));
    Ok(out)
}

/// The row passes the CHECKs from `i` on: none of them is false.
pub open spec fn passes_checks(env: EnvV, checks: Seq<ExprV>, s: SchemaV, row: Seq<ValueV>, params: Seq<ValueV>, i: int) -> Result<(), ErrorV>
    decreases checks.len() - i,
{
    if i < 0 || i >= checks.len() {
        Ok(())
    } else {
        match valid_columns(checks[i], s) {
            Err(e) => Err(e),
            Ok(_u) => {
                match value_of(branch(env, i), checks[i], Some((s, row)), params) {
                    Err(e) => Err(e),
                    Ok(v) => {
                        if v is Null {
                            passes_checks(env, checks, s, row, params, i + 1)
                        } else {
                            match truth(v) {
                                Err(e) => Err(e),
                                Ok(b) => {
                                    if b {
                                        passes_checks(env, checks, s, row, params, i + 1)
                                    } else {
                                        Err(ErrorV::Constraint("violación de restricción CHECK"@))
                                    }
                                },
                            }
                        }
                    },
                }
            },
        }
    }
}

pub fn check_row(env: &Env, checks: &Vec<Expr>, schema: &QuerySchema, row: &Vec<Value>, params: &Vec<Value>) -> (r: Result<(), Error>)
    requires
        row_fits(Some((schema, row))),
    ensures
        checked(r, passes_checks(env@, exprs_v(checks@), schema@, row_view(row@), row_view(params@), 0)),
{
    let n: usize = checks.len();
    let ghost cs = exprs_v(checks@);
    let ghost rv = row_view(row@);
    let ghost pv = row_view(params@);
    for i in 0..n
        invariant
            n == checks@.len(),
            cs == exprs_v(checks@),
            rv == row_view(row@),
            pv == row_view(params@),
            row_fits(Some((schema, row))),
            passes_checks(env@, cs, schema@, rv, pv, 0) == passes_checks(env@, cs, schema@, rv, pv, i as int),
    {
        assert(cs[i as int] == checks@[i as int]@);
        validate_columns(&checks[i], schema)?;
        let v = eval(&env.branch(i), &checks[i], Some((schema, row)), params)?;
        let is_null: bool = match &v {
            Value::Null => true,
            _ => false,
        };
        if !is_null {
            if !truthy(&v)? {
                return Err(Error::Constraint("violación de restricción CHECK".to_owned()));
            }
        }
    }
    Ok(())
}

// --- conditions and assignments ---

/// The condition may stand in a WHERE.
pub open spec fn valid_condition(cond: Option<ExprV>, s: SchemaV) -> Result<(), ErrorV> {
    match cond {
        None => Ok(()),
        Some(c) => {
            match without_aggregates(c, "WHERE"@) {
                Err(e) => Err(e),
                Ok(_u) => {
                    valid_columns(c, s)
                },
            }
        },
    }
}

pub fn check_condition(cond: &Option<Expr>, schema: &QuerySchema) -> (r: Result<(), Error>)
    requires
        schema.wf(),
    ensures
        checked(r, valid_condition(opt_v(*cond), schema@)),
{
    match cond {
        None => Ok(()),
        Some(c) => {
            no_aggregates(c, "WHERE")?;
            validate_columns(c, schema)
        },
    }
}

/// The condition holds of a row.
pub open spec fn selects(env: EnvV, cond: Option<ExprV>, s: SchemaV, row: Seq<ValueV>, params: Seq<ValueV>) -> Result<bool, ErrorV> {
    match cond {
        None => Ok(true),
        Some(c) => {
            match value_of(env, c, Some((s, row)), params) {
                Err(e) => Err(e),
                Ok(v) => {
                    truth(v)
                },
            }
        },
    }
}

pub fn is_selected(env: &Env, cond: &Option<Expr>, schema: &QuerySchema, row: &Vec<Value>, params: &Vec<Value>) -> (r: Result<bool, Error>)
    requires
        row_fits(Some((schema, row))),
    ensures
        (match selects(env@, opt_v(*cond), schema@, row_view(row@), row_view(params@)) {
                Ok(b) => r == Ok::<bool, Error>(b),
                Err(e) => r is Err && r->Err_0@ == e,
        }),
{
    match cond {
        None => Ok(true),
        Some(c) => {
            let v = eval(env, c, Some((schema, row)), params)?;
            truthy(&v)
        },
    }
}

/// An assignment: its column must be there and not be the identifier, and its
/// expression must be one of the row.
pub open spec fn valid_set(def: TableDefV, view: bool, name: Seq<char>, e: ExprV, s: SchemaV) -> Result<int, ErrorV> {
    match set_place(def, view, name) {
        Err(e) => Err(e),
        Ok(i) => {
            match without_aggregates(e, "SET"@) {
                Err(e) => Err(e),
                Ok(_u) => {
                    match valid_columns(e, s) {
                        Err(e) => Err(e),
                        Ok(_w) => {
                            Ok(i)
                        },
                    }
                },
            }
        },
    }
}

pub open spec fn set_place(def: TableDefV, view: bool, name: Seq<char>) -> Result<int, ErrorV> {
    if view {
        match place_named(def.columns, name, 0) {
            Some(i) => Ok(i),
            None => Err(sql_error("columna desconocida en la vista: "@ + name)),
        }
    } else {
        match place_of_column(def, name) {
            Err(e) => Err(e),
            Ok(i) => {
                if def.rowid_alias is Some && def.rowid_alias->0 == i {
                    Err(sql_error("no se puede actualizar la PRIMARY KEY: "@ + name))
                } else {
                    Ok(i)
                }
            },
        }
    }
}

/// The places of the assignments from `k` on.
pub open spec fn set_places(def: TableDefV, view: bool, sets: Seq<(Seq<char>, ExprV)>, s: SchemaV, k: int) -> Result<Seq<int>, ErrorV>
    decreases sets.len() - k,
{
    if k < 0 || k >= sets.len() {
        Ok(Seq::empty())
    } else {
        match valid_set(def, view, sets[k].0, sets[k].1, s) {
            Err(e) => Err(e),
            Ok(i) => {
                match set_places(def, view, sets, s, k + 1) {
                    Err(e) => Err(e),
                    Ok(rest) => {
                        Ok(seq![i] + rest)
                    },
                }
            },
        }
    }
}

fn place_to_set(def: &TableDef, view: bool, name: &str) -> (r: Result<usize, Error>)
    ensures
        (match set_place(def@, view, name@) {
                Ok(i) => r is Ok && r->Ok_0 == i && i < def@.columns.len(),
                Err(e) => r is Err && r->Err_0@ == e,
        }),
{
    if view {
        return match find_place(&def.columns, name) {
            Some(i) => Ok(i),
            None => Err(sql_err(cat("columna desconocida en la vista: ", name))),
        };
    }
    let i: usize = col_index(def, name)?;
    if let Some(a) = def.rowid_alias {
        if a == i {
            return Err(sql_err(cat("no se puede actualizar la PRIMARY KEY: ", name)));
        }
    }
    Ok(i)
}

/// The places of the columns that an UPDATE assigns, in a table or in a view.
pub fn resolve_sets(def: &TableDef, view: bool, sets: &Vec<(String, Expr)>, schema: &QuerySchema) -> (r: Result<Vec<usize>, Error>)
    requires
        schema.wf(),
    ensures
        (match set_places(def@, view, string_expr_pairs_v(sets@), schema@, 0) {
                Ok(ps) => r is Ok && ints(r->Ok_0@) == ps && r->Ok_0@.len() == sets@.len() && in_range(r->Ok_0@, def@.columns.len() as int),
                Err(e) => r is Err && r->Err_0@ == e,
        }),
{
    let n: usize = sets.len();
    let ghost ss = string_expr_pairs_v(sets@);
    let ghost whole = set_places(def@, view, ss, schema@, 0);
    let mut out: Vec<usize> = Vec::new();
    assert(ints(out@) =~= Seq::empty());
    assert(whole is Ok ==> Seq::empty() + whole->Ok_0 =~= whole->Ok_0);
    for k in 0..n
        invariant
            n == sets@.len(),
            ss == string_expr_pairs_v(sets@),
            schema.wf(),
            out@.len() == k,
            in_range(out@, def@.columns.len() as int),
            whole == set_places(def@, view, ss, schema@, 0),
            (match set_places(def@, view, ss, schema@, k as int) {
                    Ok(rest) => whole == Ok::<_, ErrorV>(ints(out@) + rest),
                    Err(e) => whole == Err::<Seq<int>, ErrorV>(e),
            }),
    {
        assert(ss[k as int] == (sets@[k as int].0@, sets@[k as int].1@));
        let ghost start = ints(out@);
        let i: usize = place_to_set(def, view, sets[k].0.as_str())?;
        no_aggregates(&sets[k].1, "SET")?;
        validate_columns(&sets[k].1, schema)?;
        let ghost o0 = out@;
        out.push(i);
        assert(ints(out@) =~= start.push(i as int));
        proof {
            assert forall|m: int| 0 <= m < out@.len() implies 0 <= (#[trigger] out@[m]) < def@.columns.len() by {
                if m < o0.len() {
                    assert(out@[m] == o0[m]);
                }
            }
            match set_places(def@, view, ss, schema@, k + 1) {
                Ok(rest) => {
                    assert(start + (seq![i as int] + rest) =~= ints(out@) + rest);
                },
                Err(_) => {},
            }
        }
    }
    assert(ints(out@) + Seq::<int>::empty() =~= ints(out@));
    Ok(out)
}

/// The row `to` with the values of the assignments from `k` on; all of them see the row
/// as it was.
pub open spec fn assigned(env: EnvV, s: SchemaV, row: Seq<ValueV>, at: Seq<int>, sets: Seq<(Seq<char>, ExprV)>, params: Seq<ValueV>, to: Seq<ValueV>, k: int) -> Result<Seq<ValueV>, ErrorV>
    decreases sets.len() - k,
{
    if k < 0 || k >= sets.len() {
        Ok(to)
    } else {
        match value_of(branch(env, k), sets[k].1, Some((s, row)), params) {
            Err(e) => Err(e),
            Ok(v) => {
                assigned(env, s, row, at, sets, params, to.update(at[k], v), k + 1)
            },
        }
    }
}

pub fn assign(env: &Env, schema: &QuerySchema, row: &Vec<Value>, at: &Vec<usize>, sets: &Vec<(String, Expr)>, params: &Vec<Value>) -> (r: Result<Vec<Value>, Error>)
    requires
        row_fits(Some((schema, row))),
        at@.len() == sets@.len(),
        in_range(at@, row@.len() as int),
    ensures
        (match assigned(env@, schema@, row_view(row@), ints(at@), string_expr_pairs_v(sets@), row_view(params@), row_view(row@), 0) {
                Ok(vs) => r is Ok && row_view(r->Ok_0@) == vs && r->Ok_0@.len() == row@.len(),
                Err(e) => r is Err && r->Err_0@ == e,
        }),
{
    let n: usize = sets.len();
    let ghost rv = row_view(row@);
    let ghost av = ints(at@);
    let ghost ss = string_expr_pairs_v(sets@);
    let ghost pv = row_view(params@);
    let ghost whole = assigned(env@, schema@, rv, av, ss, pv, rv, 0);
    let mut to = clone_row(row);
    assert(rv.len() == row@.len());
    assert(row_view(to@).len() == to@.len());
    for k in 0..n
        invariant
            n == sets@.len(),
            at@.len() == n,
            rv == row_view(row@),
            av == ints(at@),
            ss == string_expr_pairs_v(sets@),
            pv == row_view(params@),
            row_fits(Some((schema, row))),
            in_range(at@, row@.len() as int),
            to@.len() == row@.len(),
            whole == assigned(env@, schema@, rv, av, ss, pv, rv, 0),
            whole == assigned(env@, schema@, rv, av, ss, pv, row_view(to@), k as int),
    {
        assert(ss[k as int] == (sets@[k as int].0@, sets@[k as int].1@));
        let v = eval(&env.branch(k), &sets[k].1, Some((schema, row)), params)?;
        let p: usize = at[k];
        let ghost start = row_view(to@);
        let ghost vv = v@;
        to.set(p, v);
        assert(row_view(to@) =~= start.update(p as int, vv));
    }
    Ok(to)
}

/// One assignment of an upsert: `given` is the row that could not be inserted.
pub open spec fn upsert_value(env: EnvV, def: TableDefV, s: SchemaV, row: Seq<ValueV>, given: Seq<ValueV>, name: Seq<char>, e: ExprV, params: Seq<ValueV>) -> Result<(int, ValueV), ErrorV> {
    match place_of_column(def, name) {
        Err(e) => Err(e),
        Ok(i) => {
            if def.rowid_alias is Some && def.rowid_alias->0 == i {
                Err(sql_error("ON CONFLICT DO UPDATE no puede cambiar la PRIMARY KEY"@))
            } else {
                match with_rows(e, def, None, Some(given)) {
                    Err(e) => Err(e),
                    Ok(x) => {
                        match without_aggregates(x, "SET"@) {
                            Err(e) => Err(e),
                            Ok(_u) => {
                                match valid_columns(x, s) {
                                    Err(e) => Err(e),
                                    Ok(_w) => {
                                        match value_of(env, x, Some((s, row)), params) {
                                            Err(e) => Err(e),
                                            Ok(v) => {
                                                Ok((i, v))
                                            },
                                        }
                                    },
                                }
                            },
                        }
                    },
                }
            }
        },
    }
}

/// The row `to` with the values of the assignments of an upsert from `k` on.
pub open spec fn upserted(env: EnvV, def: TableDefV, s: SchemaV, row: Seq<ValueV>, given: Seq<ValueV>, sets: Seq<(Seq<char>, ExprV)>, params: Seq<ValueV>, to: Seq<ValueV>, k: int) -> Result<Seq<ValueV>, ErrorV>
    decreases sets.len() - k,
{
    if k < 0 || k >= sets.len() {
        Ok(to)
    } else {
        match upsert_value(branch(env, k), def, s, row, given, sets[k].0, sets[k].1, params) {
            Err(e) => Err(e),
            Ok(p) => {
                upserted(env, def, s, row, given, sets, params, to.update(p.0, p.1), k + 1)
            },
        }
    }
}

/// The row that an upsert makes of one in conflict; none where the condition of the
/// upsert leaves it as it is.
pub open spec fn upsert_row(env: EnvV, table: Seq<char>, def: TableDefV, row: Seq<ValueV>, given: Seq<ValueV>, sets: Seq<(Seq<char>, ExprV)>, cond: Option<ExprV>, params: Seq<ValueV>) -> Result<Option<Seq<ValueV>>, ErrorV> {
    let s = one_table(table, def);
    match upsert_selects(branch(env, 0), s, def, row, given, cond, params) {
        Err(e) => Err(e),
        Ok(go) => {
            if !go {
                Ok(None)
            } else {
                match upserted(branch(env, 1), def, s, row, given, sets, params, row, 0) {
                    Err(e) => Err(e),
                    Ok(to) => {
                        Ok(Some(to))
                    },
                }
            }
        },
    }
}

pub open spec fn upsert_selects(env: EnvV, s: SchemaV, def: TableDefV, row: Seq<ValueV>, given: Seq<ValueV>, cond: Option<ExprV>, params: Seq<ValueV>) -> Result<bool, ErrorV> {
    match cond {
        None => Ok(true),
        Some(c) => {
            match with_rows(c, def, None, Some(given)) {
                Err(e) => Err(e),
                Ok(x) => {
                    match valid_columns(x, s) {
                        Err(e) => Err(e),
                        Ok(_u) => {
                            match value_of(env, x, Some((s, row)), params) {
                                Err(e) => Err(e),
                                Ok(v) => {
                                    truth(v)
                                },
                            }
                        },
                    }
                },
            }
        },
    }
}

#[verifier::spinoff_prover]
#[verifier::rlimit(40)]
pub fn upsert_values(env: &Env, table: &str, def: &TableDef, row: &Vec<Value>, given: &Vec<Value>, sets: &Vec<(String, Expr)>, cond: &Option<Expr>, params: &Vec<Value>) -> (r: Result<Option<Vec<Value>>, Error>)
    requires
        def_ok(def@),
        row@.len() == def@.columns.len(),
        given@.len() == def@.columns.len(),
    ensures
        (match upsert_row(env@, table@, def@, row_view(row@), row_view(given@), string_expr_pairs_v(sets@), opt_v(*cond), row_view(params@)) {
                Ok(Some(vs)) => r is Ok && r->Ok_0 is Some && row_view((r->Ok_0)->0@) == vs && (r->Ok_0)->0@.len() == def@.columns.len(),
                Ok(None) => r is Ok && r->Ok_0 is None,
                Err(e) => r is Err && r->Err_0@ == e,
        }),
{
    let schema = QuerySchema::single(table, clone_table_def(def));
    assert(schema@ =~= one_table(table@, def@));
    assert(row_width(schema@.tables) == def@.columns.len());
    let ghost rv = row_view(row@);
    let ghost gv = row_view(given@);
    let ghost ss = string_expr_pairs_v(sets@);
    let ghost pv = row_view(params@);
    if let Some(c) = cond {
        let x = subst_expr(c, def, None, Some(given))?;
        validate_columns(&x, &schema)?;
        let v = eval(&env.branch(0), &x, Some((&schema, row)), params)?;
        if !truthy(&v)? {
            return Ok(None);
        }
    }
    let mut to = clone_row(row);
    assert(rv.len() == row@.len());
    assert(row_view(to@).len() == to@.len());
    let n: usize = sets.len();
    let root = env.branch(1);
    let ghost whole = upserted(root@, def@, schema@, rv, gv, ss, pv, rv, 0);
    #[verifier::loop_isolation(false)]
    for k in 0..n
        invariant
            to@.len() == def@.columns.len(),
            whole == upserted(root@, def@, schema@, rv, gv, ss, pv, row_view(to@), k as int),
    {
        assert(ss[k as int] == (sets@[k as int].0@, sets@[k as int].1@));
        let i: usize = col_index(def, sets[k].0.as_str())?;
        let alias: bool = match def.rowid_alias {
            Some(a) => a == i,
            None => false,
        };
        if alias {
            return Err(sql_lit("ON CONFLICT DO UPDATE no puede cambiar la PRIMARY KEY"));
        }
        let x = subst_expr(&sets[k].1, def, None, Some(given))?;
        no_aggregates(&x, "SET")?;
        validate_columns(&x, &schema)?;
        let v = eval(&root.branch(k), &x, Some((&schema, row)), params)?;
        let ghost start = row_view(to@);
        let ghost vv = v@;
        to.set(i, v);
        assert(row_view(to@) =~= start.update(i as int, vv));
    }
    Ok(Some(to))
}

// --- RETURNING ---

/// The items from `i` on may stand in a RETURNING.
pub open spec fn valid_returning(items: Seq<SelectItemV>, s: SchemaV, i: int) -> Result<(), ErrorV>
    decreases items.len() - i,
{
    if i < 0 || i >= items.len() {
        Ok(())
    } else {
        match items[i] {
            SelectItemV::Star => valid_returning(items, s, i + 1),
            SelectItemV::Expr { expr, alias: _ } => {
                match without_aggregates(expr, "RETURNING"@) {
                    Err(e) => Err(e),
                    Ok(_u) => {
                        match valid_columns(expr, s) {
                            Err(e) => Err(e),
                            Ok(_w) => {
                                valid_returning(items, s, i + 1)
                            },
                        }
                    },
                }
            },
        }
    }
}

/// The values of the items from `j` on, on a row.
pub open spec fn returned_row(env: EnvV, items: Seq<SelectItemV>, s: SchemaV, row: Seq<ValueV>, params: Seq<ValueV>, j: int) -> Result<Seq<ValueV>, ErrorV>
    decreases items.len() - j,
{
    if j < 0 || j >= items.len() {
        Ok(Seq::empty())
    } else {
        match items[j] {
            SelectItemV::Star => {
                match returned_row(env, items, s, row, params, j + 1) {
                    Err(e) => Err(e),
                    Ok(rest) => {
                        Ok(values_at(row, star_from(s.tables, 0)) + rest)
                    },
                }
            },
            SelectItemV::Expr { expr, alias: _ } => {
                match value_of(branch(env, j), expr, Some((s, row)), params) {
                    Err(e) => Err(e),
                    Ok(v) => {
                        match returned_row(env, items, s, row, params, j + 1) {
                            Err(e) => Err(e),
                            Ok(rest) => {
                                Ok(seq![v] + rest)
                            },
                        }
                    },
                }
            },
        }
    }
}

pub open spec fn returned_rows(env: EnvV, items: Seq<SelectItemV>, s: SchemaV, rows: Seq<Seq<ValueV>>, params: Seq<ValueV>, i: int) -> Result<Seq<Seq<ValueV>>, ErrorV>
    decreases rows.len() - i,
{
    if i < 0 || i >= rows.len() {
        Ok(Seq::empty())
    } else {
        match returned_row(branch(env, i), items, s, rows[i], params, 0) {
            Err(e) => Err(e),
            Ok(r) => {
                match returned_rows(env, items, s, rows, params, i + 1) {
                    Err(e) => Err(e),
                    Ok(rest) => {
                        Ok(seq![r] + rest)
                    },
                }
            },
        }
    }
}

/// What RETURNING shows of some rows of a table.
pub open spec fn returned(env: EnvV, table: Seq<char>, def: TableDefV, items: Seq<SelectItemV>, rows: Seq<Seq<ValueV>>, params: Seq<ValueV>) -> Result<SelectOutV, ErrorV> {
    let s = one_table(table, def);
    match valid_returning(items, s, 0) {
        Err(e) => Err(e),
        Ok(_u) => {
            match returned_rows(env, items, s, rows, params, 0) {
                Err(e) => Err(e),
                Ok(rs) => {
                    Ok(SelectOutV { columns: names_from(items, star_names_from(s.tables, 0), 0), rows: rs })
                },
            }
        },
    }
}

fn check_returning(items: &Vec<SelectItem>, schema: &QuerySchema) -> (r: Result<(), Error>)
    requires
        schema.wf(),
    ensures
        checked(r, valid_returning(select_items_v(items@), schema@, 0)),
{
    let n: usize = items.len();
    let ghost its = select_items_v(items@);
    for i in 0..n
        invariant
            n == items@.len(),
            its == select_items_v(items@),
            schema.wf(),
            valid_returning(its, schema@, 0) == valid_returning(its, schema@, i as int),
    {
        assert(its[i as int] == items@[i as int]@);
        if let SelectItem::Expr { expr, alias: _ } = &items[i] {
            no_aggregates(expr, "RETURNING")?;
            validate_columns(expr, schema)?;
        }
    }
    Ok(())
}

#[verifier::spinoff_prover]
#[verifier::rlimit(40)]
fn return_row(env: &Env, items: &Vec<SelectItem>, star: &Vec<usize>, schema: &QuerySchema, row: &Vec<Value>, params: &Vec<Value>) -> (r: Result<Vec<Value>, Error>)
    requires
        row_fits(Some((schema, row))),
        ints(star@) == star_from(schema@.tables, 0),
        in_range(star@, row@.len() as int),
    ensures
        (match returned_row(env@, select_items_v(items@), schema@, row_view(row@), row_view(params@), 0) {
                Ok(vs) => r is Ok && row_view(r->Ok_0@) == vs && vs.len() == output_width(select_items_v(items@), star@.len(), 0),
                Err(e) => r is Err && r->Err_0@ == e,
        }),
{
    let n: usize = items.len();
    let ghost its = select_items_v(items@);
    let ghost rv = row_view(row@);
    let ghost pv = row_view(params@);
    let ghost want = returned_row(env@, its, schema@, rv, pv, 0);
    let ghost total = output_width(its, star@.len(), 0);
    let mut out: Vec<Value> = Vec::new();
    assert(row_view(out@) =~= Seq::empty());
    assert(want is Ok ==> Seq::empty() + want->Ok_0 =~= want->Ok_0);
    for j in 0..n
        invariant
            n == items@.len(),
            its == select_items_v(items@),
            its.len() == n,
            rv == row_view(row@),
            pv == row_view(params@),
            row_fits(Some((schema, row))),
            ints(star@) == star_from(schema@.tables, 0),
            in_range(star@, row@.len() as int),
            total == output_width(its, star@.len(), 0),
            out@.len() + output_width(its, star@.len(), j as int) == total,
            want == returned_row(env@, its, schema@, rv, pv, 0),
            (match returned_row(env@, its, schema@, rv, pv, j as int) {
                    Ok(rest) => want == Ok::<_, ErrorV>(row_view(out@) + rest),
                    Err(e) => want == Err::<Seq<ValueV>, ErrorV>(e),
            }),
    {
        assert(its[j as int] == items@[j as int]@);
        let ghost before = row_view(out@);
        match &items[j] {
            SelectItem::Star => {
                let vs = pick_values(row, star);
                let ghost vv = row_view(vs@);
                push_values(&mut out, vs);
                proof {
                    match returned_row(env@, its, schema@, rv, pv, j + 1) {
                        Ok(rest) => {
                            assert(before + (vv + rest) =~= row_view(out@) + rest);
                        },
                        Err(_) => {},
                    }
                }
            },
            SelectItem::Expr { expr, alias: _ } => {
                let v = eval(&env.branch(j), expr, Some((schema, row)), params)?;
                let ghost vv = v@;
                out.push(v);
                assert(row_view(out@) =~= before.push(vv));
                proof {
                    match returned_row(env@, its, schema@, rv, pv, j + 1) {
                        Ok(rest) => {
                            assert(before + (seq![vv] + rest) =~= row_view(out@) + rest);
                        },
                        Err(_) => {},
                    }
                }
            },
        }
    }
    assert(row_view(out@) + Seq::<ValueV>::empty() =~= row_view(out@));
    Ok(out)
}

/// The rows of a RETURNING.
#[verifier::spinoff_prover]
#[verifier::rlimit(60)]
pub fn eval_returning(env: &Env, table: &str, def: &TableDef, items: &Vec<SelectItem>, rows: &Vec<Vec<Value>>, params: &Vec<Value>) -> (r: Result<SelectOut, Error>)
    requires
        def_ok(def@),
        rows_wide(rows_view(rows@), def@.columns.len() as int),
    ensures
        gives(r, returned(env@, table@, def@, select_items_v(items@), rows_view(rows@), row_view(params@))),
        r is Ok ==> fits(r->Ok_0@),
{
    let schema = QuerySchema::single(table, clone_table_def(def));
    assert(schema@ =~= one_table(table@, def@));
    assert(row_width(schema@.tables) == def@.columns.len());
    check_returning(items, &schema)?;
    let (star, star_names) = star_columns(&schema);
    let columns = output_names(items, &star_names);
    let ghost its = select_items_v(items@);
    let ghost pv = row_view(params@);
    proof {
        lemma_names_width(its, strings_v(star_names@), 0);
        assert(strings_v(columns@).len() == columns@.len());
        assert(strings_v(star_names@).len() == star@.len());
    }
    let n: usize = rows.len();
    let ghost rv = rows_view(rows@);
    let ghost want = returned_rows(env@, its, schema@, rv, pv, 0);
    let ghost cw = columns@.len() as int;
    let mut out: Vec<Vec<Value>> = Vec::new();
    assert(rows_view(out@) =~= Seq::empty());
    assert(want is Ok ==> Seq::empty() + want->Ok_0 =~= want->Ok_0);
    #[verifier::loop_isolation(false)]
    for i in 0..n
        invariant
            rows_wide(rows_view(out@), cw),
            (match returned_rows(env@, its, schema@, rv, pv, i as int) {
                    Ok(rest) => want == Ok::<_, ErrorV>(rows_view(out@) + rest),
                    Err(e) => want == Err::<Seq<Seq<ValueV>>, ErrorV>(e),
            }),
    {
        assert(rv[i as int] == row_view(rows@[i as int]@));
        assert(rv[i as int].len() == def@.columns.len());
        let ghost before = rows_view(out@);
        let row = return_row(&env.branch(i), items, &star, &schema, &rows[i], params)?;
        let ghost nv = row_view(row@);
        out.push(row);
        assert(rows_view(out@) =~= before.push(nv));
        proof {
            match returned_rows(env@, its, schema@, rv, pv, i + 1) {
                Ok(rest) => {
                    assert(before + (seq![nv] + rest) =~= rows_view(out@) + rest);
                },
                Err(_) => {},
            }
        }
    }
    assert(rows_view(out@) + Seq::<Seq<ValueV>>::empty() =~= rows_view(out@));
    Ok(SelectOut { columns, rows: out })
}

// --- which rows to look at ---

/// How the rows that a condition may select are reached. Where a constant does not fit
/// an index, the next way is tried.
pub open spec fn candidates(env: EnvV, q: Seq<char>, def: TableDefV, cond: Option<ExprV>, params: Seq<ValueV>) -> Result<AccessV, ErrorV> {
    match by_identifier(branch(env, 0), q, def, cond, params) {
        Err(e) => Err(e),
        Ok(one) => {
            match one {
                Some(a) => Ok(a),
                None => {
                    match by_equality(branch(env, 1), q, def, cond, params) {
                        Err(e) => Err(e),
                        Ok(two) => {
                            match two {
                                Some(a) => Ok(a),
                                None => {
                                    match by_range(branch(env, 2), q, def, cond, params) {
                                        Err(e) => Err(e),
                                        Ok(three) => {
                                            match three {
                                                AccessV::Scan => by_match(branch(env, 3), def, cond, params),
                                                a => Ok(a),
                                            }
                                        },
                                    }
                                },
                            }
                        },
                    }
                },
            }
        },
    }
}

pub open spec fn by_identifier(env: EnvV, q: Seq<char>, def: TableDefV, cond: Option<ExprV>, params: Seq<ValueV>) -> Result<Option<AccessV>, ErrorV> {
    match point_key(q, def, cond) {
        None => Ok(None),
        Some(e) => {
            match value_of(env, e, None, params) {
                Err(e) => Err(e),
                Ok(v) => {
                    match v {
                        ValueV::Integer(id) => Ok(Some(AccessV::One(id))),
                        _ => Ok(None),
                    }
                },
            }
        },
    }
}

pub open spec fn by_equality(env: EnvV, q: Seq<char>, def: TableDefV, cond: Option<ExprV>, params: Seq<ValueV>) -> Result<Option<AccessV>, ErrorV> {
    match equal_plan(q, def, cond) {
        None => Ok(None),
        Some((i, es)) => {
            match key_values(env, def, def.indexes[i].columns, es, params, 0) {
                Err(e) => Err(e),
                Ok(vs) => {
                    match vs {
                        Some(key) => Ok(Some(AccessV::Equal(i, key))),
                        None => Ok(None),
                    }
                },
            }
        },
    }
}

pub open spec fn by_range(env: EnvV, q: Seq<char>, def: TableDefV, cond: Option<ExprV>, params: Seq<ValueV>) -> Result<AccessV, ErrorV> {
    match range_plan(q, def, cond) {
        None => Ok(AccessV::Scan),
        Some((i, op, e)) => range_access(env, def, i, op, e, params),
    }
}

pub open spec fn by_match(env: EnvV, def: TableDefV, cond: Option<ExprV>, params: Seq<ValueV>) -> Result<AccessV, ErrorV> {
    match match_access(env, def, cond, params) {
        Err(e) => Err(e),
        Ok(m) => {
            match m {
                Some(a) => Ok(a),
                None => Ok(AccessV::Scan),
            }
        },
    }
}

#[verifier::spinoff_prover]
#[verifier::rlimit(40)]
pub fn candidate_access(env: &Env, q: &str, def: &TableDef, cond: &Option<Expr>, params: &Vec<Value>) -> (r: Result<Access, Error>)
    requires
        def_ok(def@),
    ensures
        decided(r, candidates(env@, q@, def@, opt_v(*cond), row_view(params@))),
{
    let c: Option<&Expr> = match cond {
        Some(c) => Some(c),
        None => None,
    };
    assert(opt_ref(c) == opt_v(*cond));
    if let Some(e) = point_lookup_key(q, def, c) {
        let v = eval_const(&env.branch(0), e, params)?;
        if let Value::Integer(id) = v {
            return Ok(Access::One(id));
        }
    }
    if let Some((i, es)) = index_eq_plan(q, def, c) {
        assert(def@.indexes[i as int] == def.indexes@[i as int]@);
        assert forall|k: int| 0 <= k < def.indexes@[i as int].columns@.len() implies (#[trigger] def.indexes@[i as int].columns@[k]) < def@.columns.len() by {
            assert(def@.indexes[i as int].columns[k] == def.indexes@[i as int].columns@[k]);
        }
        assert(refs_v(es@).len() == es@.len());
        if let Some(key) = index_values(&env.branch(1), def, &def.indexes[i], &es, params)? {
            return Ok(Access::Equal(i, key));
        }
    }
    if let Some((i, op, e)) = index_range_plan(q, def, c) {
        let a = range_rows(&env.branch(2), def, i, op, e, params)?;
        let scan: bool = match &a {
            Access::Scan => true,
            _ => false,
        };
        if !scan {
            return Ok(a);
        }
    }
    match fts_plan(&env.branch(3), def, c, params)? {
        Some(a) => Ok(a),
        None => Ok(Access::Scan),
    }
}

} // verus!
