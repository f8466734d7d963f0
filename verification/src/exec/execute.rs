//! Statements that write: what they ask of the store, in which order, and what they give.
use vstd::prelude::*;

use crate::catalog::{clone_column_pos, clone_index_def, clone_strings, clone_table_def, ColumnDef, ColumnDefV, TableDef, TableDefV, TriggerDef, TriggerDefV, TriggerEvent, TriggerForEach, TriggerTiming, VectorMetric};
#[allow(unused_imports)]
use crate::catalog::strings_v;
use crate::error::{sql_err, sql_lit, Error, ErrorV};
#[allow(unused_imports)]
use crate::error::sql_error;
use crate::exec::change::{assign, candidate_access, check_condition, check_row, eval_returning, is_selected, parse_checks, resolve_sets, upsert_values};
#[allow(unused_imports)]
use crate::exec::change::{assigned, candidates, check_exprs, passes_checks, returned, selects, set_places, upsert_row, valid_condition};
#[allow(unused_imports)]
use crate::exec::joins::one_table;
use crate::exec::journal::{hold, Action, ActionV, Journal, Reply, ReplyV, Stop, StopV};
#[allow(unused_imports)]
use crate::exec::journal::{asked_done, asked_flag, asked_id, asked_ids, asked_output, asked_row, asked_rows, asked_table, asked_text, asked_triggers, first_of, held, opt_row_v, pairs_v, read_on, replies_v};
use crate::exec::ops::{Env, EnvV};
#[allow(unused_imports)]
use crate::exec::ops::branch;
use crate::exec::output::{pick_values, SelectOut, SelectOutV};
#[allow(unused_imports)]
use crate::exec::output::{fits, ints, values_at};
#[allow(unused_imports)]
use crate::exec::rows::{in_range, rows_wide};
use crate::exec::schema::QuerySchema;
#[allow(unused_imports)]
use crate::exec::schema::{def_ok, row_fits, row_width, SchemaV};
use crate::exec::source::synthetic_cte_def;
#[allow(unused_imports)]
use crate::exec::source::result_table;
use crate::exec::write::{all_change, column_places, default_value, insert_values, query_table, split_for_each, subst_stmt, table_spec, view_insert_values};
#[allow(unused_imports)]
use crate::exec::write::{declared_table, default_of, only_changes, opt_row, opt_v, places_of, proposed, result_spec, rows_of, stmt_with_rows, triggers_for_each, triggers_v, view_proposed};
use crate::record::{clone_row, Value, ValueV};
#[allow(unused_imports)]
use crate::record::{row_view, rows_view};
use crate::sql::ast::{clone_exprss, clone_select, ColumnAst, Expr, ExprV, InsertSource, InsertSourceV, OnConflict, OnConflictV, SelectItem, SelectItemV, SelectStmtV, Stmt, StmtV};
#[allow(unused_imports)]
use crate::sql::ast::{exprs_v, exprss_v, select_items_v, string_expr_pairs_v};
#[allow(unused_imports)]
use crate::sql::grammar::{parsed, parsed_many};
use crate::sql::parser::{parse, parse_many};
#[allow(unused_imports)]
use crate::sql::parser::stmts_v;
use crate::text::{cat, cat3, str_eq};

verus! {

/// What a write runs in: its environment and the answers of its store.
pub ghost struct Cx {
    pub env: EnvV,
    pub j: Seq<ReplyV>,
}

/// The outcome of a statement inside a trigger, from an answer on.
pub type Nested = spec_fn(StmtV, int) -> Result<(int, int), StopV>;

pub open spec fn missing_table<T>(name: Seq<char>, k: int) -> Result<T, StopV> {
    Err(StopV::Fail(sql_error("tabla desconocida: "@ + name), k))
}

// --- triggers ---

/// Runs triggers for a row, one after the other, with the store told where they begin
/// and end.
#[verifier::opaque]
pub open spec fn fired(cx: Cx, run: Nested, def: TableDefV, ts: Seq<TriggerDefV>, before: Option<Seq<ValueV>>, after: Option<Seq<ValueV>>, k: int) -> Result<((), int), StopV> {
    if ts.len() == 0 {
        Ok(((), k))
    } else {
        match asked_done(cx.j, ActionV::EnterTrigger, k) {
            Err(e) => Err(e),
            Ok((_u, k1)) => {
                match fired_from(cx, run, def, ts, before, after, 0, k1) {
                    Ok((_v, k2)) => asked_done(cx.j, ActionV::ExitTrigger, k2),
                    Err(StopV::Fail(e, k2)) => match asked_done(cx.j, ActionV::ExitTrigger, k2) {
                        Ok((_w, k3)) => Err(StopV::Fail(e, k3)),
                        Err(s) => Err(s),
                    },
                    Err(s) => Err(s),
                }
            },
        }
    }
}

pub open spec fn fired_from(cx: Cx, run: Nested, def: TableDefV, ts: Seq<TriggerDefV>, before: Option<Seq<ValueV>>, after: Option<Seq<ValueV>>, i: int, k: int) -> Result<((), int), StopV>
    decreases ts.len() - i,
{
    if i < 0 || i >= ts.len() {
        Ok(((), k))
    } else {
        match held(parsed_many(ts[i].body, cx.env.reals), k) {
            Err(e) => Err(e),
            Ok(stmts) => {
                match body_from(run, def, stmts, before, after, 0, k) {
                    Err(e) => Err(e),
                    Ok((_u, k1)) => {
                        fired_from(cx, run, def, ts, before, after, i + 1, k1)
                    },
                }
            },
        }
    }
}

pub open spec fn body_from(run: Nested, def: TableDefV, stmts: Seq<StmtV>, before: Option<Seq<ValueV>>, after: Option<Seq<ValueV>>, i: int, k: int) -> Result<((), int), StopV>
    decreases stmts.len() - i,
{
    if i < 0 || i >= stmts.len() {
        Ok(((), k))
    } else {
        match held(stmt_with_rows(stmts[i], def, before, after), k) {
            Err(e) => Err(e),
            Ok(stmt) => {
                match run(stmt, k) {
                    Err(e) => Err(e),
                    Ok((_n, k1)) => {
                        body_from(run, def, stmts, before, after, i + 1, k1)
                    },
                }
            },
        }
    }
}

pub open spec fn row_level(ts: Seq<TriggerDefV>) -> Seq<TriggerDefV> {
    triggers_for_each(ts, TriggerForEach::Row, 0)
}

pub open spec fn statement_level(ts: Seq<TriggerDefV>) -> Seq<TriggerDefV> {
    triggers_for_each(ts, TriggerForEach::Statement, 0)
}

/// The triggers of a table before and after an event.
#[verifier::opaque]
pub open spec fn triggers_of(cx: Cx, table: Seq<char>, event: TriggerEvent, k: int) -> Result<((Seq<TriggerDefV>, Seq<TriggerDefV>), int), StopV> {
    match asked_triggers(cx.j, ActionV::Triggers { table, event, timing: TriggerTiming::Before }, k) {
        Err(e) => Err(e),
        Ok((before, k1)) => {
            match asked_triggers(cx.j, ActionV::Triggers { table, event, timing: TriggerTiming::After }, k1) {
                Err(e) => Err(e),
                Ok((after, k2)) => {
                    Ok(((before, after), k2))
                },
            }
        },
    }
}

/// What RETURNING gives, where there is one.
#[verifier::opaque]
pub open spec fn opt_returned(env: EnvV, table: Seq<char>, def: TableDefV, items: Option<Seq<SelectItemV>>, rows: Seq<Seq<ValueV>>, params: Seq<ValueV>) -> Result<Option<SelectOutV>, ErrorV> {
    match items {
        None => Ok(None),
        Some(its) => {
            match returned(env, table, def, its, rows, params) {
                Err(e) => Err(e),
                Ok(out) => {
                    Ok(Some(out))
                },
            }
        },
    }
}

// --- INSERT ---

/// An INSERT into a table.
pub ghost struct InsertV {
    pub table: Seq<char>,
    pub def: TableDefV,
    pub columns: Option<Seq<Seq<char>>>,
    pub on_conflict: Option<OnConflictV>,
    pub params: Seq<ValueV>,
    pub checks: Seq<ExprV>,
    pub before: Seq<TriggerDefV>,
    pub after: Seq<TriggerDefV>,
    pub update_before: Seq<TriggerDefV>,
    pub update_after: Seq<TriggerDefV>,
}

/// The rows of a result as expressions.
pub open spec fn literals(rows: Seq<Seq<ValueV>>) -> Seq<Seq<ExprV>> {
    Seq::new(rows.len(), |i: int| Seq::new(rows[i].len(), |c: int| ExprV::Literal(rows[i][c])))
}

/// The rows that an INSERT takes; a query is answered before anything is written.
pub open spec fn source_rows(cx: Cx, source: InsertSourceV, params: Seq<ValueV>, k: int) -> Result<(Seq<Seq<ExprV>>, int), StopV> {
    match source {
        InsertSourceV::Values(rows) => Ok((rows, k)),
        InsertSourceV::Select(q) => {
            match asked_output(cx.j, ActionV::Query { query: *q, params }, k) {
                Err(e) => Err(e),
                Ok((out, k1)) => {
                    Ok((literals(out.rows), k1))
                },
            }
        },
    }
}

/// The key of a row in an index has a NULL.
pub open spec fn null_key(key: Seq<ValueV>) -> bool {
    exists|i: int| 0 <= i < key.len() && #[trigger] key[i] is Null
}

/// The identifier of a row with the same key in a UNIQUE index from `i` on; a NULL is
/// like no other value.
pub open spec fn same_key(cx: Cx, def: TableDefV, row: Seq<ValueV>, i: int, k: int) -> Result<(Option<i64>, int), StopV>
    decreases def.indexes.len() - i,
{
    if i < 0 || i >= def.indexes.len() {
        Ok((None, k))
    } else {
        let key = values_at(row, ints(def.indexes[i].columns));
        if !def.indexes[i].unique || null_key(key) {
            same_key(cx, def, row, i + 1, k)
        } else {
            match first_of(asked_ids(cx.j, ActionV::Lookup { table: def, index: def.indexes[i], key }, k)) {
                Err(e) => Err(e),
                Ok((hit, k1)) => {
                    match hit {
                        Some(id) => Ok((Some(id), k1)),
                        None => same_key(cx, def, row, i + 1, k1),
                    }
                },
            }
        }
    }
}

/// The identifier of a row that the proposed one is in conflict with.
#[verifier::opaque]
pub open spec fn conflict(cx: Cx, def: TableDefV, row: Seq<ValueV>, k: int) -> Result<(Option<i64>, int), StopV> {
    if def.rowid_alias is Some && row[def.rowid_alias->0 as int] is Integer {
        let id = row[def.rowid_alias->0 as int]->Integer_0;
        match asked_row(cx.j, ActionV::Row { table: def, rowid: id }, def.columns.len() as int, k) {
            Err(e) => Err(e),
            Ok((found, k1)) => {
                if found is Some {
                    Ok((Some(id), k1))
                } else {
                    same_key(cx, def, row, 0, k1)
                }
            },
        }
    } else {
        same_key(cx, def, row, 0, k)
    }
}

/// The row with its identifier.
pub open spec fn with_id(def: TableDefV, row: Seq<ValueV>, id: i64) -> Seq<ValueV> {
    match def.rowid_alias {
        Some(a) => row.update(a as int, ValueV::Integer(id)),
        None => row,
    }
}

/// Changes the row in conflict instead.
#[verifier::opaque]
pub open spec fn upserted_row(cx: Cx, run: Nested, w: InsertV, id: i64, given: Seq<ValueV>, sets: Seq<(Seq<char>, ExprV)>, cond: Option<ExprV>, k: int) -> Result<(Option<Seq<ValueV>>, int), StopV> {
    match asked_row(cx.j, ActionV::Row { table: w.def, rowid: id }, w.def.columns.len() as int, k) {
        Err(e) => Err(e),
        Ok((found, k1)) => {
            match found {
                None => Err(StopV::Fail(sql_error("la fila en conflicto desapareció"@), k1)),
                Some(row) => {
                    match held(upsert_row(branch(branch(cx.env, k1), 1), w.table, w.def, row, given, sets, cond, w.params), k1) {
                        Err(e) => Err(e),
                        Ok(to) => {
                            match to {
                                None => Ok((None, k1)),
                                Some(new) => {
                                    match held(passes_checks(branch(branch(cx.env, k1), 2), w.checks, one_table(w.table, w.def), new, w.params, 0), k1) {
                                        Err(e) => Err(e),
                                        Ok(_u) => {
                                            match fired(cx, run, w.def, w.update_before, Some(row), Some(new), k1) {
                                                Err(e) => Err(e),
                                                Ok((_a, k2)) => {
                                                    match asked_done(cx.j, ActionV::UpdateRow { table: w.def, rowid: id, row: new }, k2) {
                                                        Err(e) => Err(e),
                                                        Ok((_b, k3)) => {
                                                            match fired(cx, run, w.def, w.update_after, Some(row), Some(new), k3) {
                                                                Err(e) => Err(e),
                                                                Ok((_c, k4)) => {
                                                                    Ok((Some(new), k4))
                                                                },
                                                            }
                                                        },
                                                    }
                                                },
                                            }
                                        },
                                    }
                                },
                            }
                        },
                    }
                },
            }
        },
    }
}

/// Inserts the row with its triggers.
#[verifier::opaque]
pub open spec fn new_row(cx: Cx, run: Nested, w: InsertV, row: Seq<ValueV>, k: int) -> Result<(Option<Seq<ValueV>>, int), StopV> {
    match held(passes_checks(branch(branch(cx.env, k), 2), w.checks, one_table(w.table, w.def), row, w.params, 0), k) {
        Err(e) => Err(e),
        Ok(_u) => {
            match fired(cx, run, w.def, w.before, None, Some(row), k) {
                Err(e) => Err(e),
                Ok((_a, k1)) => {
                    match asked_id(cx.j, ActionV::InsertRow { table: w.def, row }, k1) {
                        Err(e) => Err(e),
                        Ok((id, k2)) => {
                            let stored = with_id(w.def, row, id);
                            match fired(cx, run, w.def, w.after, None, Some(stored), k2) {
                                Err(e) => Err(e),
                                Ok((_b, k3)) => {
                                    Ok((Some(stored), k3))
                                },
                            }
                        },
                    }
                },
            }
        },
    }
}

/// One row of an INSERT: the row that is there afterwards, or none where the conflict
/// leaves things as they are.
#[verifier::opaque]
pub open spec fn inserted_row(cx: Cx, run: Nested, w: InsertV, es: Seq<ExprV>, k: int) -> Result<(Option<Seq<ValueV>>, int), StopV> {
    match held(proposed(branch(branch(cx.env, k), 0), w.def, w.columns, es, w.params), k) {
        Err(e) => Err(e),
        Ok(row) => {
            match w.on_conflict {
                None => new_row(cx, run, w, row, k),
                Some(oc) => {
                    match conflict(cx, w.def, row, k) {
                        Err(e) => Err(e),
                        Ok((hit, k1)) => {
                            match hit {
                                None => new_row(cx, run, w, row, k1),
                                Some(id) => match oc {
                                    OnConflictV::Nothing => Ok((None, k1)),
                                    OnConflictV::Update { sets, where_clause } => upserted_row(cx, run, w, id, row, sets, where_clause, k1),
                                },
                            }
                        },
                    }
                },
            }
        },
    }
}

/// The rows from `i` on.
pub open spec fn inserted_rows(cx: Cx, run: Nested, w: InsertV, rows: Seq<Seq<ExprV>>, i: int, k: int) -> Result<(Seq<Seq<ValueV>>, int), StopV>
    decreases rows.len() - i,
{
    if i < 0 || i >= rows.len() {
        Ok((Seq::empty(), k))
    } else {
        match inserted_row(cx, run, w, rows[i], k) {
            Err(e) => Err(e),
            Ok((row, k1)) => {
                match inserted_rows(cx, run, w, rows, i + 1, k1) {
                    Err(e) => Err(e),
                    Ok((rest, k2)) => {
                        Ok((opt_seq(row) + rest, k2))
                    },
                }
            },
        }
    }
}

pub open spec fn opt_seq(row: Option<Seq<ValueV>>) -> Seq<Seq<ValueV>> {
    match row {
        Some(r) => seq![r],
        None => Seq::empty(),
    }
}

/// An INSERT into a table: how many rows it wrote, and what RETURNING gives.
#[verifier::opaque]
pub open spec fn inserted(cx: Cx, run: Nested, table: Seq<char>, def: TableDefV, columns: Option<Seq<Seq<char>>>, rows: Seq<Seq<ExprV>>, on_conflict: Option<OnConflictV>, returning: Option<Seq<SelectItemV>>, params: Seq<ValueV>, k: int) -> Result<((int, Option<SelectOutV>), int), StopV> {
    match triggers_of(cx, def.name, TriggerEvent::Insert, k) {
        Err(e) => Err(e),
        Ok((ins, k1)) => {
            match update_triggers(cx, def.name, on_conflict is Some, k1) {
                Err(e) => Err(e),
                Ok((upd, k2)) => {
                    match held(check_exprs(def.checks, cx.env.reals, 0), k2) {
                        Err(e) => Err(e),
                        Ok(checks) => {
                            match fired(cx, run, def, statement_level(ins.0), None, None, k2) {
                                Err(e) => Err(e),
                                Ok((_a, k3)) => {
                                    let w = InsertV { table, def, columns, on_conflict, params, checks, before: row_level(ins.0), after: row_level(ins.1), update_before: row_level(upd.0), update_after: row_level(upd.1) };
                                    match inserted_rows(cx, run, w, rows, 0, k3) {
                                        Err(e) => Err(e),
                                        Ok((done, k4)) => {
                                            match fired(cx, run, def, statement_level(ins.1), None, None, k4) {
                                                Err(e) => Err(e),
                                                Ok((_b, k5)) => {
                                                    match held(opt_returned(branch(branch(cx.env, k5), 5), table, def, returning, done, params), k5) {
                                                        Err(e) => Err(e),
                                                        Ok(out) => {
                                                            Ok(((done.len() as int, out), k5))
                                                        },
                                                    }
                                                },
                                            }
                                        },
                                    }
                                },
                            }
                        },
                    }
                },
            }
        },
    }
}

pub open spec fn update_triggers(cx: Cx, table: Seq<char>, needed: bool, k: int) -> Result<((Seq<TriggerDefV>, Seq<TriggerDefV>), int), StopV> {
    if needed {
        triggers_of(cx, table, TriggerEvent::Update, k)
    } else {
        Ok(((Seq::empty(), Seq::empty()), k))
    }
}

// --- views ---

/// The columns and the rows of a view.
#[verifier::opaque]
pub open spec fn view_result(cx: Cx, name: Seq<char>, text: Seq<char>, k: int) -> Result<(SelectOutV, int), StopV> {
    match held(parsed(text, cx.env.reals), k) {
        Err(e) => Err(e),
        Ok(stmt) => {
            match stmt {
                StmtV::Select(q) => asked_output(cx.j, ActionV::Query { query: q, params: Seq::empty() }, k),
                _ => Err(StopV::Fail(sql_error("la vista «"@ + name + "» no define un SELECT"@), k)),
            }
        },
    }
}

/// The triggers that stand for an event on a view.
#[verifier::opaque]
pub open spec fn instead_triggers(cx: Cx, view: Seq<char>, event: TriggerEvent, k: int) -> Result<(Seq<TriggerDefV>, int), StopV> {
    match asked_triggers(cx.j, ActionV::Triggers { table: view, event, timing: TriggerTiming::InsteadOf }, k) {
        Err(e) => Err(e),
        Ok((ts, k1)) => {
            if ts.len() == 0 {
                Err(StopV::Fail(sql_error(no_instead(event)), k1))
            } else {
                Ok((ts, k1))
            }
        },
    }
}

pub open spec fn no_instead(event: TriggerEvent) -> Seq<char> {
    match event {
        TriggerEvent::Insert => "no se puede INSERT en una vista sin un trigger INSTEAD OF"@,
        TriggerEvent::Update => "no se puede UPDATE una vista sin un trigger INSTEAD OF"@,
        TriggerEvent::Delete => "no se puede DELETE en una vista sin un trigger INSTEAD OF"@,
    }
}

pub open spec fn view_inserts(cx: Cx, run: Nested, def: TableDefV, ts: Seq<TriggerDefV>, columns: Option<Seq<Seq<char>>>, rows: Seq<Seq<ExprV>>, params: Seq<ValueV>, i: int, k: int) -> Result<((), int), StopV>
    decreases rows.len() - i,
{
    if i < 0 || i >= rows.len() {
        Ok(((), k))
    } else {
        match held(view_proposed(branch(branch(branch(cx.env, k), 0), i), def, columns, rows[i], params), k) {
            Err(e) => Err(e),
            Ok(row) => {
                match fired(cx, run, def, ts, None, Some(row), k) {
                    Err(e) => Err(e),
                    Ok((_u, k1)) => {
                        view_inserts(cx, run, def, ts, columns, rows, params, i + 1, k1)
                    },
                }
            },
        }
    }
}

#[verifier::opaque]
pub open spec fn inserted_in_view(cx: Cx, run: Nested, view: Seq<char>, text: Seq<char>, columns: Option<Seq<Seq<char>>>, rows: Seq<Seq<ExprV>>, params: Seq<ValueV>, k: int) -> Result<(int, int), StopV> {
    match instead_triggers(cx, view, TriggerEvent::Insert, k) {
        Err(e) => Err(e),
        Ok((ts, k1)) => {
            match view_result(cx, view, text, k1) {
                Err(e) => Err(e),
                Ok((out, k2)) => {
                    match view_inserts(cx, run, result_table(view, out.columns), ts, columns, rows, params, 0, k2) {
                        Err(e) => Err(e),
                        Ok((_u, k3)) => {
                            Ok((rows.len() as int, k3))
                        },
                    }
                },
            }
        },
    }
}

/// The rows of a view from `i` on that an UPDATE or a DELETE selects; `n` were before
/// them.
pub open spec fn view_changes(cx: Cx, run: Nested, s: SchemaV, def: TableDefV, ts: Seq<TriggerDefV>, cond: Option<ExprV>, change: Option<(Seq<int>, Seq<(Seq<char>, ExprV)>)>, rows: Seq<Seq<ValueV>>, params: Seq<ValueV>, i: int, n: int, k: int) -> Result<(int, int), StopV>
    decreases rows.len() - i,
{
    if i < 0 || i >= rows.len() {
        Ok((n, k))
    } else {
        match held(selects(branch(branch(branch(cx.env, k), 4), i), cond, s, rows[i], params), k) {
            Err(e) => Err(e),
            Ok(yes) => {
                if !yes {
                    view_changes(cx, run, s, def, ts, cond, change, rows, params, i + 1, n, k)
                } else {
                    match held(row_after(branch(branch(branch(cx.env, k), 6), i), s, change, rows[i], params), k) {
                        Err(e) => Err(e),
                        Ok(after) => {
                            match fired(cx, run, def, ts, Some(rows[i]), after, k) {
                                Err(e) => Err(e),
                                Ok((_u, k1)) => {
                                    view_changes(cx, run, s, def, ts, cond, change, rows, params, i + 1, n + 1, k1)
                                },
                            }
                        },
                    }
                }
            },
        }
    }
}

/// The row after the assignments; none where it is deleted.
pub open spec fn row_after(env: EnvV, s: SchemaV, change: Option<(Seq<int>, Seq<(Seq<char>, ExprV)>)>, row: Seq<ValueV>, params: Seq<ValueV>) -> Result<Option<Seq<ValueV>>, ErrorV> {
    match change {
        None => Ok(None),
        Some((at, sets)) => {
            match assigned(env, s, row, at, sets, params, row, 0) {
                Err(e) => Err(e),
                Ok(to) => {
                    Ok(Some(to))
                },
            }
        },
    }
}

#[verifier::opaque]
pub open spec fn updated_in_view(cx: Cx, run: Nested, view: Seq<char>, text: Seq<char>, sets: Seq<(Seq<char>, ExprV)>, cond: Option<ExprV>, params: Seq<ValueV>, k: int) -> Result<(int, int), StopV> {
    match instead_triggers(cx, view, TriggerEvent::Update, k) {
        Err(e) => Err(e),
        Ok((ts, k1)) => {
            match view_result(cx, view, text, k1) {
                Err(e) => Err(e),
                Ok((out, k2)) => {
                    let def = result_table(view, out.columns);
                    let s = one_table(view, def);
                    match held(set_places(def, true, sets, s, 0), k2) {
                        Err(e) => Err(e),
                        Ok(at) => {
                            match held(valid_condition(cond, s), k2) {
                                Err(e) => Err(e),
                                Ok(_u) => {
                                    view_changes(cx, run, s, def, ts, cond, Some((at, sets)), out.rows, params, 0, 0, k2)
                                },
                            }
                        },
                    }
                },
            }
        },
    }
}

#[verifier::opaque]
pub open spec fn deleted_in_view(cx: Cx, run: Nested, view: Seq<char>, text: Seq<char>, cond: Option<ExprV>, params: Seq<ValueV>, k: int) -> Result<(int, int), StopV> {
    match instead_triggers(cx, view, TriggerEvent::Delete, k) {
        Err(e) => Err(e),
        Ok((ts, k1)) => {
            match view_result(cx, view, text, k1) {
                Err(e) => Err(e),
                Ok((out, k2)) => {
                    let def = result_table(view, out.columns);
                    let s = one_table(view, def);
                    match held(valid_condition(cond, s), k2) {
                        Err(e) => Err(e),
                        Ok(_u) => {
                            view_changes(cx, run, s, def, ts, cond, None, out.rows, params, 0, 0, k2)
                        },
                    }
                },
            }
        },
    }
}

// --- UPDATE and DELETE ---

/// The rows from `i` on that the condition selects, with what becomes of them.
pub open spec fn changes(env: EnvV, s: SchemaV, cond: Option<ExprV>, change: Option<(Seq<int>, Seq<(Seq<char>, ExprV)>)>, rows: Seq<(i64, Seq<ValueV>)>, params: Seq<ValueV>, i: int) -> Result<Seq<(i64, Seq<ValueV>, Option<Seq<ValueV>>)>, ErrorV>
    decreases rows.len() - i,
{
    if i < 0 || i >= rows.len() {
        Ok(Seq::empty())
    } else {
        match selects(branch(branch(env, 4), i), cond, s, rows[i].1, params) {
            Err(e) => Err(e),
            Ok(yes) => {
                if !yes {
                    changes(env, s, cond, change, rows, params, i + 1)
                } else {
                    match row_after(branch(branch(env, 6), i), s, change, rows[i].1, params) {
                        Err(e) => Err(e),
                        Ok(after) => {
                            match changes(env, s, cond, change, rows, params, i + 1) {
                                Err(e) => Err(e),
                                Ok(rest) => {
                                    Ok(seq![(rows[i].0, rows[i].1, after)] + rest)
                                },
                            }
                        },
                    }
                }
            },
        }
    }
}

/// Writes the changes from `i` on, each between its triggers.
pub open spec fn changed_rows(cx: Cx, run: Nested, s: SchemaV, def: TableDefV, checks: Seq<ExprV>, before: Seq<TriggerDefV>, after: Seq<TriggerDefV>, list: Seq<(i64, Seq<ValueV>, Option<Seq<ValueV>>)>, params: Seq<ValueV>, i: int, k: int) -> Result<((), int), StopV>
    decreases list.len() - i,
{
    if i < 0 || i >= list.len() {
        Ok(((), k))
    } else {
        match changed_row(cx, run, s, def, checks, before, after, list[i], params, k) {
            Err(e) => Err(e),
            Ok((_u, k1)) => {
                changed_rows(cx, run, s, def, checks, before, after, list, params, i + 1, k1)
            },
        }
    }
}

#[verifier::opaque]
pub open spec fn changed_row(cx: Cx, run: Nested, s: SchemaV, def: TableDefV, checks: Seq<ExprV>, before: Seq<TriggerDefV>, after: Seq<TriggerDefV>, c: (i64, Seq<ValueV>, Option<Seq<ValueV>>), params: Seq<ValueV>, k: int) -> Result<((), int), StopV> {
    match held(new_passes(branch(branch(cx.env, k), 2), s, checks, c.2, params), k) {
        Err(e) => Err(e),
        Ok(_c) => {
            match fired(cx, run, def, before, Some(c.1), c.2, k) {
                Err(e) => Err(e),
                Ok((_u, k1)) => {
                    match asked_done(cx.j, write_of(def, c), k1) {
                        Err(e) => Err(e),
                        Ok((_v, k2)) => {
                            fired(cx, run, def, after, Some(c.1), c.2, k2)
                        },
                    }
                },
            }
        },
    }
}

pub open spec fn new_passes(env: EnvV, s: SchemaV, checks: Seq<ExprV>, to: Option<Seq<ValueV>>, params: Seq<ValueV>) -> Result<(), ErrorV> {
    match to {
        Some(row) => passes_checks(env, checks, s, row, params, 0),
        None => Ok(()),
    }
}

pub open spec fn write_of(def: TableDefV, c: (i64, Seq<ValueV>, Option<Seq<ValueV>>)) -> ActionV {
    match c.2 {
        Some(row) => ActionV::UpdateRow { table: def, rowid: c.0, row },
        None => ActionV::DeleteRow { table: def, rowid: c.0 },
    }
}

/// A row that fails a CHECK is refused before anything is asked of the store for it,
/// whether it is inserted, changed, or takes the place of a row in conflict.
pub proof fn checks_come_first(cx: Cx, run: Nested, w: InsertV, row: Seq<ValueV>, before: Seq<TriggerDefV>, after: Seq<TriggerDefV>, id: i64, from: Seq<ValueV>, given: Seq<ValueV>, sets: Seq<(Seq<char>, ExprV)>, cond: Option<ExprV>, k: int, k1: int, e: ErrorV)
    requires
        passes_checks(branch(branch(cx.env, k), 2), w.checks, one_table(w.table, w.def), row, w.params, 0) == Err::<(), ErrorV>(e),
    ensures
        new_row(cx, run, w, row, k) == Err::<(Option<Seq<ValueV>>, int), StopV>(StopV::Fail(e, k)),
        changed_row(cx, run, one_table(w.table, w.def), w.def, w.checks, before, after, (id, from, Some(row)), w.params, k) == Err::<((), int), StopV>(StopV::Fail(e, k)),
        asked_row(cx.j, ActionV::Row { table: w.def, rowid: id }, w.def.columns.len() as int, k) == Ok::<(Option<Seq<ValueV>>, int), StopV>((Some(from), k1)) && passes_checks(branch(branch(cx.env, k1), 2), w.checks, one_table(w.table, w.def), row, w.params, 0) == Err::<(), ErrorV>(e) && upsert_row(branch(branch(cx.env, k1), 1), w.table, w.def, from, given, sets, cond, w.params) == Ok::<Option<Seq<ValueV>>, ErrorV>(Some(row)) ==> upserted_row(cx, run, w, id, given, sets, cond, k) == Err::<(Option<Seq<ValueV>>, int), StopV>(StopV::Fail(e, k1)),
{
    reveal(new_row);
    reveal(changed_row);
    reveal(upserted_row);
}

/// The rows that RETURNING sees: as they are now, or as they were before they were
/// deleted.
pub open spec fn seen(list: Seq<(i64, Seq<ValueV>, Option<Seq<ValueV>>)>) -> Seq<Seq<ValueV>> {
    Seq::new(list.len(), |i: int| match list[i].2 {
            Some(row) => row,
            None => list[i].1,
    })
}

pub open spec fn some_checks(cx: Cx, def: TableDefV, needed: bool, k: int) -> Result<Seq<ExprV>, StopV> {
    if needed {
        held(check_exprs(def.checks, cx.env.reals, 0), k)
    } else {
        Ok(Seq::empty())
    }
}

/// An UPDATE or a DELETE on a table. The rows are found before any is written.
#[verifier::opaque]
pub open spec fn changed(cx: Cx, run: Nested, table: Seq<char>, def: TableDefV, event: TriggerEvent, change: Option<(Seq<int>, Seq<(Seq<char>, ExprV)>)>, cond: Option<ExprV>, returning: Option<Seq<SelectItemV>>, params: Seq<ValueV>, k: int) -> Result<((int, Option<SelectOutV>), int), StopV> {
    let s = one_table(table, def);
    match held(valid_condition(cond, s), k) {
        Err(e) => Err(e),
        Ok(_u) => {
            match triggers_of(cx, def.name, event, k) {
                Err(e) => Err(e),
                Ok((ts, k1)) => {
                    match held(candidates(branch(branch(cx.env, k1), 3), table, def, cond, params), k1) {
                        Err(e) => Err(e),
                        Ok(access) => {
                            match asked_rows(cx.j, ActionV::Rows { table: def, access }, def.columns.len() as int, k1) {
                                Err(e) => Err(e),
                                Ok((rows, k2)) => {
                                    match held(changes(branch(cx.env, k2), s, cond, change, rows, params, 0), k2) {
                                        Err(e) => Err(e),
                                        Ok(list) => {
                                            match some_checks(cx, def, change is Some, k2) {
                                                Err(e) => Err(e),
                                                Ok(checks) => {
                                                    match fired(cx, run, def, statement_level(ts.0), None, None, k2) {
                                                        Err(e) => Err(e),
                                                        Ok((_a, k3)) => {
                                                            match changed_rows(cx, run, s, def, checks, row_level(ts.0), row_level(ts.1), list, params, 0, k3) {
                                                                Err(e) => Err(e),
                                                                Ok((_b, k4)) => {
                                                                    match fired(cx, run, def, statement_level(ts.1), None, None, k4) {
                                                                        Err(e) => Err(e),
                                                                        Ok((_c, k5)) => {
                                                                            match held(opt_returned(branch(branch(cx.env, k5), 5), table, def, returning, seen(list), params), k5) {
                                                                                Err(e) => Err(e),
                                                                                Ok(out) => {
                                                                                    Ok(((list.len() as int, out), k5))
                                                                                },
                                                                            }
                                                                        },
                                                                    }
                                                                },
                                                            }
                                                        },
                                                    }
                                                },
                                            }
                                        },
                                    }
                                },
                            }
                        },
                    }
                },
            }
        },
    }
}

/// An UPDATE of a table.
#[verifier::opaque]
pub open spec fn updated(cx: Cx, run: Nested, table: Seq<char>, def: TableDefV, sets: Seq<(Seq<char>, ExprV)>, cond: Option<ExprV>, returning: Option<Seq<SelectItemV>>, params: Seq<ValueV>, k: int) -> Result<((int, Option<SelectOutV>), int), StopV> {
    match held(set_places(def, false, sets, one_table(table, def), 0), k) {
        Err(e) => Err(e),
        Ok(at) => {
            changed(cx, run, table, def, TriggerEvent::Update, Some((at, sets)), cond, returning, params, k)
        },
    }
}

// --- statements ---

/// A count without rows.
pub open spec fn count_only(r: Result<(int, int), StopV>) -> Result<((int, Option<SelectOutV>), int), StopV> {
    match r {
        Ok((n, k)) => Ok(((n, None), k)),
        Err(s) => Err(s),
    }
}

/// INSERT, UPDATE and DELETE: how many rows they wrote, and what RETURNING gives.
#[verifier::opaque]
pub open spec fn rows_written(cx: Cx, run: Nested, stmt: StmtV, params: Seq<ValueV>, k: int) -> Result<((int, Option<SelectOutV>), int), StopV> {
    match stmt {
        StmtV::Insert { table, columns, source, on_conflict, returning } => {
            match source_rows(cx, source, params, k) {
                Err(e) => Err(e),
                Ok((rows, k1)) => {
                    match asked_table(cx.j, ActionV::FindTable(table), k1) {
                        Err(e) => Err(e),
                        Ok((d, k2)) => {
                            match d {
                                Some(def) => inserted(cx, run, table, def, columns, rows, on_conflict, returning, params, k2),
                                None => {
                                    match asked_text(cx.j, ActionV::FindView(table), k2) {
                                        Err(e) => Err(e),
                                        Ok((v, k3)) => {
                                            match v {
                                                None => missing_table(table, k3),
                                                Some(text) => if returning is Some || on_conflict is Some {
                                                    Err(StopV::Fail(sql_error("RETURNING / ON CONFLICT no se admiten al escribir en una vista"@), k3))
                                                } else {
                                                    count_only(inserted_in_view(cx, run, table, text, columns, rows, params, k3))
                                                },
                                            }
                                        },
                                    }
                                },
                            }
                        },
                    }
                },
            }
        },
        StmtV::Update { table, sets, where_clause, returning } => {
            match asked_table(cx.j, ActionV::FindTable(table), k) {
                Err(e) => Err(e),
                Ok((d, k1)) => {
                    match d {
                        Some(def) => updated(cx, run, table, def, sets, where_clause, returning, params, k1),
                        None => {
                            match view_to_change(cx, table, returning is Some, k1) {
                                Err(e) => Err(e),
                                Ok((text, k2)) => {
                                    count_only(updated_in_view(cx, run, table, text, sets, where_clause, params, k2))
                                },
                            }
                        },
                    }
                },
            }
        },
        StmtV::Delete { table, where_clause, returning } => {
            match asked_table(cx.j, ActionV::FindTable(table), k) {
                Err(e) => Err(e),
                Ok((d, k1)) => {
                    match d {
                        Some(def) => changed(cx, run, table, def, TriggerEvent::Delete, None, where_clause, returning, params, k1),
                        None => {
                            match view_to_change(cx, table, returning is Some, k1) {
                                Err(e) => Err(e),
                                Ok((text, k2)) => {
                                    count_only(deleted_in_view(cx, run, table, text, where_clause, params, k2))
                                },
                            }
                        },
                    }
                },
            }
        },
        _ => Err(StopV::Fail(sql_error("solo INSERT/UPDATE/DELETE … RETURNING devuelven filas"@), k)),
    }
}

/// The text of a view that is written to.
#[verifier::opaque]
pub open spec fn view_to_change(cx: Cx, name: Seq<char>, returning: bool, k: int) -> Result<(Seq<char>, int), StopV> {
    match asked_text(cx.j, ActionV::FindView(name), k) {
        Err(e) => Err(e),
        Ok((v, k1)) => {
            match v {
                None => missing_table(name, k1),
                Some(text) => if returning {
                    Err(StopV::Fail(sql_error("RETURNING no se admite al escribir en una vista"@), k1))
                } else {
                    Ok((text, k1))
                },
            }
        },
    }
}

pub open spec fn constraint<T>(msg: Seq<char>, k: int) -> Result<T, StopV> {
    Err(StopV::Fail(ErrorV::Constraint(msg), k))
}

/// Nothing is counted once an action is done.
pub open spec fn no_rows(r: Result<((), int), StopV>) -> Result<(int, int), StopV> {
    match r {
        Ok((_u, k)) => Ok((0int, k)),
        Err(s) => Err(s),
    }
}

/// Drops something, which must be there unless the statement says otherwise.
pub open spec fn dropped(cx: Cx, a: ActionV, if_exists: bool, what: Seq<char>, name: Seq<char>, k: int) -> Result<(int, int), StopV> {
    match asked_flag(cx.j, a, k) {
        Err(e) => Err(e),
        Ok((there, k1)) => {
            if !there && !if_exists {
                Err(StopV::Fail(sql_error(what + name), k1))
            } else {
                Ok((0int, k1))
            }
        },
    }
}

/// A table that an index is made on.
pub open spec fn indexed_table(cx: Cx, table: Seq<char>, k: int) -> Result<(TableDefV, int), StopV> {
    match asked_table(cx.j, ActionV::FindTable(table), k) {
        Err(e) => Err(e),
        Ok((d, k1)) => {
            match d {
                Some(def) => Ok((def, k1)),
                None => missing_table(table, k1),
            }
        },
    }
}

/// Inserts the rows of a result from `i` on.
pub open spec fn stored_rows(cx: Cx, def: TableDefV, rows: Seq<Seq<ValueV>>, i: int, k: int) -> Result<((), int), StopV>
    decreases rows.len() - i,
{
    if i < 0 || i >= rows.len() {
        Ok(((), k))
    } else {
        match asked_id(cx.j, ActionV::InsertRow { table: def, row: rows[i] }, k) {
            Err(e) => Err(e),
            Ok((_id, k1)) => {
                stored_rows(cx, def, rows, i + 1, k1)
            },
        }
    }
}

/// A table made from a query.
#[verifier::opaque]
pub open spec fn table_from(cx: Cx, name: Seq<char>, query: SelectStmtV, params: Seq<ValueV>, k: int) -> Result<(int, int), StopV> {
    match asked_output(cx.j, ActionV::Query { query, params }, k) {
        Err(e) => Err(e),
        Ok((out, k1)) => {
            match held(result_spec(name, out), k1) {
                Err(e) => Err(e),
                Ok(spec) => {
                    match asked_table(cx.j, ActionV::CreateTable(spec), k1) {
                        Err(e) => Err(e),
                        Ok((d, k2)) => {
                            match d {
                                None => Err(StopV::Fail(crate::exec::journal::unexpected(), k2)),
                                Some(def) => {
                                    match stored_rows(cx, def, out.rows, 0, k2) {
                                        Err(e) => Err(e),
                                        Ok((_u, k3)) => {
                                            Ok((out.rows.len() as int, k3))
                                        },
                                    }
                                },
                            }
                        },
                    }
                },
            }
        },
    }
}

/// The name of a table or of a view is taken.
#[verifier::opaque]
pub open spec fn name_taken(cx: Cx, name: Seq<char>, k: int) -> Result<(bool, int), StopV> {
    match asked_table(cx.j, ActionV::FindTable(name), k) {
        Err(e) => Err(e),
        Ok((d, k1)) => {
            if d is Some {
                Ok((true, k1))
            } else {
                match asked_text(cx.j, ActionV::FindView(name), k1) {
                    Err(e) => Err(e),
                    Ok((v, k2)) => {
                        Ok((v is Some, k2))
                    },
                }
            }
        },
    }
}

/// A vector metric by its name.
pub open spec fn metric_of(name: Option<Seq<char>>) -> Result<VectorMetric, ErrorV> {
    match name {
        None => Ok(VectorMetric::Cosine),
        Some(m) => if m == "cosine"@ {
            Ok(VectorMetric::Cosine)
        } else if m == "l2"@ {
            Ok(VectorMetric::L2)
        } else {
            Err(sql_error("métrica vectorial desconocida: "@ + m))
        },
    }
}

/// The number in the range of a 16-bit count that is not zero.
pub open spec fn clamped(n: int) -> int {
    if n < 1 {
        1
    } else if n > 0xffff {
        0xffff
    } else {
        n
    }
}

/// How many lists a vector index has.
pub open spec fn lists_of(lists: Option<u32>) -> int {
    match lists {
        Some(n) => clamped(n as int),
        None => 100,
    }
}

/// How many lists a search reads: a tenth of them, rounded up, unless it is given.
pub open spec fn probes_of(probes: Option<u32>, lists: int) -> int {
    match probes {
        Some(n) => clamped(n as int),
        None => (lists + 9) / 10,
    }
}

#[verifier::opaque]
pub open spec fn index_made(cx: Cx, unique: bool, name: Seq<char>, table: Seq<char>, columns: Seq<Seq<char>>, k: int) -> Result<(int, int), StopV> {
    match indexed_table(cx, table, k) {
        Err(e) => Err(e),
        Ok((def, k1)) => {
            match held(places_of(def, columns, 0), k1) {
                Err(e) => Err(e),
                Ok(at) => {
                    no_rows(asked_done(cx.j, ActionV::CreateIndex { table, name, columns: at, unique }, k1))
                },
            }
        },
    }
}

#[verifier::opaque]
pub open spec fn fts_index_made(cx: Cx, name: Seq<char>, table: Seq<char>, columns: Seq<Seq<char>>, tokenizer: Option<Seq<char>>, k: int) -> Result<(int, int), StopV> {
    match indexed_table(cx, table, k) {
        Err(e) => Err(e),
        Ok((def, k1)) => {
            match held(places_of(def, columns, 0), k1) {
                Err(e) => Err(e),
                Ok(at) => {
                    let tok = match tokenizer {
                        Some(t) => t,
                        None => "unicode"@,
                    };
                    no_rows(asked_done(cx.j, ActionV::CreateFtsIndex { table, name, columns: at, tokenizer: tok }, k1))
                },
            }
        },
    }
}

#[verifier::opaque]
pub open spec fn vector_index_made(cx: Cx, name: Seq<char>, table: Seq<char>, column: Seq<char>, metric: Option<Seq<char>>, lists: Option<u32>, probes: Option<u32>, k: int) -> Result<(int, int), StopV> {
    match indexed_table(cx, table, k) {
        Err(e) => Err(e),
        Ok((def, k1)) => {
            match held(places_of(def, seq![column], 0), k1) {
                Err(e) => Err(e),
                Ok(at) => {
                    match held(metric_of(metric), k1) {
                        Err(e) => Err(e),
                        Ok(m) => {
                            let n = lists_of(lists);
                            no_rows(asked_done(cx.j, ActionV::CreateVectorIndex { table, name, column: at[0], lists: n as u16, metric: m, nprobe: probes_of(probes, n) as u16 }, k1))
                        },
                    }
                },
            }
        },
    }
}

/// Makes something unless it is there already.
pub open spec fn made_once(cx: Cx, found: Result<(bool, int), StopV>, if_not_exists: bool, taken: Seq<char>) -> Result<(bool, int), StopV> {
    match found {
        Err(s) => Err(s),
        Ok((yes, k)) => if yes && !if_not_exists {
            constraint(taken, k)
        } else {
            Ok((!yes, k))
        },
    }
}

pub open spec fn is_there<T>(r: Result<(Option<T>, int), StopV>) -> Result<(bool, int), StopV> {
    match r {
        Ok((x, k)) => Ok((x is Some, k)),
        Err(s) => Err(s),
    }
}

/// An index is looked for only where it may be there already.
pub open spec fn skipped(cx: Cx, a: ActionV, if_not_exists: bool, k: int) -> Result<(bool, int), StopV> {
    if if_not_exists {
        asked_flag(cx.j, a, k)
    } else {
        Ok((false, k))
    }
}

#[verifier::opaque]
pub open spec fn trigger_made(cx: Cx, name: Seq<char>, timing: TriggerTiming, event: TriggerEvent, for_each: TriggerForEach, table: Seq<char>, body: Seq<char>, k: int) -> Result<(int, int), StopV> {
    match held(parsed_many(body, cx.env.reals), k) {
        Err(e) => Err(e),
        Ok(stmts) => {
            if !only_changes(stmts) {
                Err(StopV::Fail(sql_error("el cuerpo de un trigger solo admite INSERT/UPDATE/DELETE"@), k))
            } else {
                no_rows(asked_done(cx.j, ActionV::CreateTrigger(TriggerDefV { name, timing, event, for_each, table, body }), k))
            }
        },
    }
}

#[verifier::opaque]
pub open spec fn column_added(cx: Cx, table: Seq<char>, column: crate::sql::ast::ColumnAstV, params: Seq<ValueV>, k: int) -> Result<(int, int), StopV> {
    if column.primary_key {
        Err(StopV::Fail(sql_error("ALTER TABLE ADD: no se puede añadir una PRIMARY KEY"@), k))
    } else {
        match indexed_table(cx, table, k) {
            Err(e) => Err(e),
            Ok((def, k1)) => {
                match held(default_of(branch(cx.env, k1), column.default, params), k1) {
                    Err(e) => Err(e),
                    Ok(d) => {
                        no_rows(asked_done(cx.j, ActionV::AddColumn { table, column: ColumnDefV { name: column.name, col_type: column.col_type, not_null: column.not_null, default: d, dropped: false } }, k1))
                    },
                }
            },
        }
    }
}

/// A statement that writes, from answer `k` on: how many rows it wrote.
#[verifier::opaque]
pub open spec fn executed(cx: Cx, run: Nested, stmt: StmtV, params: Seq<ValueV>, k: int) -> Result<(int, int), StopV> {
    match stmt {
        StmtV::CreateTable { if_not_exists, name, columns, foreign_keys, uniques, checks } => {
            match made_once(cx, is_there(asked_table(cx.j, ActionV::FindTable(name), k)), if_not_exists, "la tabla ya existe"@) {
                Err(e) => Err(e),
                Ok((go, k1)) => {
                    if !go {
                        Ok((0int, k1))
                    } else {
                        match held(declared_table(cx.env, name, columns, foreign_keys, uniques, checks), k1) {
                            Err(e) => Err(e),
                            Ok(spec) => {
                                match asked_table(cx.j, ActionV::CreateTable(spec), k1) {
                                    Err(e) => Err(e),
                                    Ok((_d, k2)) => {
                                        Ok((0int, k2))
                                    },
                                }
                            },
                        }
                    }
                },
            }
        },
        StmtV::CreateTableAs { if_not_exists, name, query } => {
            match made_once(cx, name_taken(cx, name, k), if_not_exists, "la tabla ya existe"@) {
                Err(e) => Err(e),
                Ok((go, k1)) => {
                    if !go {
                        Ok((0int, k1))
                    } else {
                        table_from(cx, name, *query, params, k1)
                    }
                },
            }
        },
        StmtV::DropTable { if_exists, name } => dropped(cx, ActionV::DropTable(name), if_exists, "tabla desconocida: "@, name, k),
        StmtV::CreateView { if_not_exists, name, select_sql } => {
            match made_once(cx, is_there(asked_text(cx.j, ActionV::FindView(name), k)), if_not_exists, "la vista ya existe"@) {
                Err(e) => Err(e),
                Ok((go, k1)) => {
                    if !go {
                        Ok((0int, k1))
                    } else {
                        no_rows(asked_done(cx.j, ActionV::CreateView { name, select_sql }, k1))
                    }
                },
            }
        },
        StmtV::DropView { if_exists, name } => dropped(cx, ActionV::DropView(name), if_exists, "vista desconocida: "@, name, k),
        StmtV::CreateTrigger { if_not_exists, name, timing, event, for_each, table, body_sql } => {
            match made_once(cx, asked_flag(cx.j, ActionV::FindTrigger(name), k), if_not_exists, "el trigger ya existe"@) {
                Err(e) => Err(e),
                Ok((go, k1)) => {
                    if !go {
                        Ok((0int, k1))
                    } else {
                        trigger_made(cx, name, timing, event, for_each, table, body_sql, k1)
                    }
                },
            }
        },
        StmtV::DropTrigger { if_exists, name } => dropped(cx, ActionV::DropTrigger(name), if_exists, "trigger desconocido: "@, name, k),
        StmtV::CreateIndex { if_not_exists, unique, name, table, columns } => {
            match skipped(cx, ActionV::FindIndex(name), if_not_exists, k) {
                Err(e) => Err(e),
                Ok((skip, k1)) => {
                    if skip {
                        Ok((0int, k1))
                    } else {
                        index_made(cx, unique, name, table, columns, k1)
                    }
                },
            }
        },
        StmtV::DropIndex { if_exists, name } => dropped(cx, ActionV::DropIndex(name), if_exists, "índice desconocido: "@, name, k),
        StmtV::CreateFtsIndex { if_not_exists, name, table, columns, tokenizer } => {
            match skipped(cx, ActionV::FindFtsIndex(name), if_not_exists, k) {
                Err(e) => Err(e),
                Ok((skip, k1)) => {
                    if skip {
                        Ok((0int, k1))
                    } else {
                        fts_index_made(cx, name, table, columns, tokenizer, k1)
                    }
                },
            }
        },
        StmtV::DropFtsIndex { if_exists, name } => dropped(cx, ActionV::DropFtsIndex(name), if_exists, "índice FTS desconocido: "@, name, k),
        StmtV::CreateVectorIndex { if_not_exists, name, table, column, metric, lists, probes } => {
            match skipped(cx, ActionV::FindVectorIndex(name), if_not_exists, k) {
                Err(e) => Err(e),
                Ok((skip, k1)) => {
                    if skip {
                        Ok((0int, k1))
                    } else {
                        vector_index_made(cx, name, table, column, metric, lists, probes, k1)
                    }
                },
            }
        },
        StmtV::DropVectorIndex { if_exists, name } => dropped(cx, ActionV::DropVectorIndex(name), if_exists, "índice vectorial desconocido: "@, name, k),
        StmtV::RebuildVectorIndex { name } => dropped(cx, ActionV::RebuildVectorIndex(name), false, "índice vectorial desconocido: "@, name, k),
        StmtV::AlterTableAddColumn { table, column } => column_added(cx, table, column, params, k),
        StmtV::AlterTableMoveColumn { table, column, pos } => no_rows(asked_done(cx.j, ActionV::MoveColumn { table, column, pos }, k)),
        StmtV::AlterTableReorderColumns { table, order } => no_rows(asked_done(cx.j, ActionV::ReorderColumns { table, order }, k)),
        StmtV::AlterTableRenameColumn { table, old: from, new: to } => no_rows(asked_done(cx.j, ActionV::RenameColumn { table, from, to }, k)),
        StmtV::AlterTableDropColumn { table, column } => no_rows(asked_done(cx.j, ActionV::DropColumn { table, column }, k)),
        StmtV::Select(_) => Err(StopV::Fail(sql_error("SELECT devuelve filas: usa query, no execute"@), k)),
        StmtV::Begin | StmtV::Commit | StmtV::Rollback | StmtV::Savepoint(_) | StmtV::ReleaseSavepoint(_) | StmtV::RollbackTo(_) => Err(StopV::Fail(sql_error("las sentencias de transacción/savepoint las gestiona la conexión"@), k)),
        _ => {
            match rows_written(cx, run, stmt, params, k) {
                Err(e) => Err(e),
                Ok((r, k1)) => {
                    Ok((r.0, k1))
                },
            }
        },
    }
}

/// Statements inside triggers that nest at most `depth` deep. Each level has read an
/// answer more than the one around it, so that there are no more levels than answers.
pub open spec fn nested(env: EnvV, j: Seq<ReplyV>, depth: nat) -> Nested
    decreases depth,
{
    |stmt: StmtV, k: int| if depth == 0 {
        Err(StopV::Fail(sql_error("triggers demasiado anidados"@), k))
    } else {
        executed(Cx { env, j }, nested(env, j, (depth - 1) as nat), stmt, Seq::empty(), k)
    }
}

/// The whole outcome of a statement, with the answers that its store has given.
pub open spec fn run_outcome(env: EnvV, j: Seq<ReplyV>, stmt: StmtV, params: Seq<ValueV>) -> Result<(int, int), StopV> {
    executed(Cx { env, j }, nested(env, j, j.len()), stmt, params, 0)
}

/// The rows that a statement with RETURNING gives.
pub open spec fn returning_outcome(env: EnvV, j: Seq<ReplyV>, stmt: StmtV, params: Seq<ValueV>) -> Result<(SelectOutV, int), StopV> {
    match rows_written(Cx { env, j }, nested(env, j, j.len()), stmt, params, 0) {
        Err(e) => Err(e),
        Ok((r, k)) => {
            match r.1 {
                Some(out) => Ok((out, k)),
                None => Err(StopV::Fail(sql_error("la sentencia no lleva RETURNING"@), k)),
            }
        },
    }
}

// --- running ---

fn exists_flag(v: &Option<String>) -> (r: bool)
    ensures
        r == (*v is Some),
{
    match v {
        Some(_) => true,
        None => false,
    }
}

fn literal_rows(rows: &Vec<Vec<Value>>) -> (r: Vec<Vec<Expr>>)
    ensures
        exprss_v(r@) == literals(rows_view(rows@)),
{
    let n: usize = rows.len();
    let ghost want = literals(rows_view(rows@));
    let mut out: Vec<Vec<Expr>> = Vec::new();
    for i in 0..n
        invariant
            n == rows@.len(),
            want == literals(rows_view(rows@)),
            out@.len() == i,
            forall|k: int| 0 <= k < i ==> exprs_v((#[trigger] out@[k])@) == want[k],
    {
        let m: usize = rows[i].len();
        assert(rows_view(rows@)[i as int] == row_view(rows@[i as int]@));
        let mut row: Vec<Expr> = Vec::new();
        for c in 0..m
            invariant
                i < n,
                n == rows@.len(),
                m == rows@[i as int]@.len(),
                row@.len() == c,
                forall|k: int| 0 <= k < c ==> (#[trigger] row@[k])@ == ExprV::Literal(rows@[i as int]@[k]@),
        {
            row.push(Expr::Literal(rows[i][c].clone()));
        }
        assert(exprs_v(row@) =~= want[i as int]);
        out.push(row);
    }
    assert(exprss_v(out@) =~= want);
    out
}

fn has_null(key: &Vec<Value>) -> (r: bool)
    ensures
        r == null_key(row_view(key@)),
{
    let n: usize = key.len();
    let ghost kv = row_view(key@);
    for i in 0..n
        invariant
            n == key@.len(),
            kv == row_view(key@),
            forall|k: int| 0 <= k < i ==> !(#[trigger] kv[k] is Null),
    {
        assert(kv[i as int] == key@[i as int]@);
        if let Value::Null = &key[i] {
            assert(kv[i as int] is Null);
            return true;
        }
    }
    false
}

pub open spec fn opt_items(o: Option<Vec<SelectItem>>) -> Option<Seq<SelectItemV>> {
    match o {
        Some(v) => Some(select_items_v(v@)),
        None => None,
    }
}

pub open spec fn opt_names(o: Option<Vec<String>>) -> Option<Seq<Seq<char>>> {
    match o {
        Some(v) => Some(strings_v(v@)),
        None => None,
    }
}

pub open spec fn opt_conflict(o: Option<OnConflict>) -> Option<OnConflictV> {
    match o {
        Some(c) => Some(c@),
        None => None,
    }
}

pub open spec fn opt_out(o: Option<SelectOut>) -> Option<SelectOutV> {
    match o {
        Some(x) => Some(x@),
        None => None,
    }
}

/// An INSERT into a table.
struct Insert<'b> {
    table: &'b str,
    def: &'b TableDef,
    columns: &'b Option<Vec<String>>,
    on_conflict: &'b Option<OnConflict>,
    params: &'b Vec<Value>,
    checks: Vec<Expr>,
    before: Vec<TriggerDef>,
    after: Vec<TriggerDef>,
    update_before: Vec<TriggerDef>,
    update_after: Vec<TriggerDef>,
    schema: QuerySchema,
}

impl<'b> Insert<'b> {

    spec fn v(&self) -> InsertV {
        InsertV {
            table: self.table@,
            def: self.def@,
            columns: opt_names(*self.columns),
            on_conflict: opt_conflict(*self.on_conflict),
            params: row_view(self.params@),
            checks: exprs_v(self.checks@),
            before: triggers_v(self.before@),
            after: triggers_v(self.after@),
            update_before: triggers_v(self.update_before@),
            update_after: triggers_v(self.update_after@),
        }
    }

    spec fn ok(&self) -> bool {
        def_ok(self.def@) && self.schema.wf() && self.schema@ == one_table(self.table@, self.def@) && row_width(self.schema@.tables) == self.def@.columns.len()
    }

}

/// What becomes of a row.
struct Change {
    rowid: i64,
    was: Vec<Value>,
    to: Option<Vec<Value>>,
}

spec fn changes_v(s: Seq<Change>) -> Seq<(i64, Seq<ValueV>, Option<Seq<ValueV>>)> {
    Seq::new(s.len(), |i: int| (s[i].rowid, row_view(s[i].was@), opt_row_v(s[i].to)))
}

spec fn changes_wide(s: Seq<Change>, w: int) -> bool {
    forall|i: int| 0 <= i < s.len() ==> change_wide(#[trigger] s[i], w)
}

spec fn change_wide(c: Change, w: int) -> bool {
    c.was@.len() == w && (c.to is Some ==> c.to->0@.len() == w)
}

/// The assignments of an UPDATE with their places; a DELETE has none.
spec fn change_v(c: Option<(&Vec<usize>, &Vec<(String, Expr)>)>) -> Option<(Seq<int>, Seq<(Seq<char>, ExprV)>)> {
    match c {
        Some((at, sets)) => Some((ints(at@), string_expr_pairs_v(sets@))),
        None => None,
    }
}

spec fn change_ok(c: Option<(&Vec<usize>, &Vec<(String, Expr)>)>, w: int) -> bool {
    match c {
        Some((at, sets)) => at@.len() == sets@.len() && in_range(at@, w),
        None => true,
    }
}

fn after_change(env: &Env, schema: &QuerySchema, change: Option<(&Vec<usize>, &Vec<(String, Expr)>)>, row: &Vec<Value>, params: &Vec<Value>) -> (r: Result<Option<Vec<Value>>, Error>)
    requires
        row_fits(Some((schema, row))),
        change_ok(change, row@.len() as int),
    ensures
        (match row_after(env@, schema@, change_v(change), row_view(row@), row_view(params@)) {
                Ok(x) => r is Ok && opt_row_v(r->Ok_0) == x && (r->Ok_0 is Some ==> (r->Ok_0)->0@.len() == row@.len()),
                Err(e) => r is Err && r->Err_0@ == e,
        }),
{
    match change {
        None => Ok(None),
        Some((at, sets)) => {
            let to = assign(env, schema, row, at, sets, params)?;
            Ok(Some(to))
        },
    }
}

#[verifier::spinoff_prover]
#[verifier::rlimit(40)]
fn find_changes(env: &Env, schema: &QuerySchema, cond: &Option<Expr>, change: Option<(&Vec<usize>, &Vec<(String, Expr)>)>, rows: Vec<(i64, Vec<Value>)>, params: &Vec<Value>) -> (r: Result<Vec<Change>, Error>)
    requires
        schema.wf(),
        change_ok(change, row_width(schema@.tables) as int),
        forall|i: int| 0 <= i < rows@.len() ==> (#[trigger] rows@[i]).1@.len() == row_width(schema@.tables),
    ensures
        (match changes(env@, schema@, opt_v(*cond), change_v(change), pairs_v(rows@), row_view(params@), 0) {
                Ok(s) => r is Ok && changes_v(r->Ok_0@) == s && changes_wide(r->Ok_0@, row_width(schema@.tables) as int),
                Err(e) => r is Err && r->Err_0@ == e,
        }),
{
    let n: usize = rows.len();
    let ghost rv = pairs_v(rows@);
    let ghost pv = row_view(params@);
    let ghost cv = opt_v(*cond);
    let ghost chv = change_v(change);
    let ghost w = row_width(schema@.tables) as int;
    let ghost want = changes(env@, schema@, cv, chv, rv, pv, 0);
    let mut out: Vec<Change> = Vec::new();
    assert(changes_v(out@) =~= Seq::empty());
    assert(want is Ok ==> Seq::empty() + want->Ok_0 =~= want->Ok_0);
    #[verifier::loop_isolation(false)]
    for i in 0..n
        invariant
            changes_wide(out@, w),
            (match changes(env@, schema@, cv, chv, rv, pv, i as int) {
                    Ok(rest) => want == Ok::<_, ErrorV>(changes_v(out@) + rest),
                    Err(e) => want == Err::<Seq<(i64, Seq<ValueV>, Option<Seq<ValueV>>)>, ErrorV>(e),
            }),
    {
        assert(rv[i as int] == (rows@[i as int].0, row_view(rows@[i as int].1@)));
        let row: &Vec<Value> = &rows[i].1;
        if is_selected(&env.branch(4).branch(i), cond, schema, row, params)? {
            let ghost start = changes_v(out@);
            let to = after_change(&env.branch(6).branch(i), schema, change, row, params)?;
            let was = clone_row(row);
            assert(row_view(was@).len() == was@.len());
            assert(row_view(row@).len() == row@.len());
            let c = Change { rowid: rows[i].0, was, to };
            let ghost p = (c.rowid, row_view(c.was@), opt_row_v(c.to));
            out.push(c);
            assert(changes_v(out@) =~= start.push(p));
            proof {
                match changes(env@, schema@, cv, chv, rv, pv, i + 1) {
                    Ok(rest) => {
                        assert(start + (seq![p] + rest) =~= changes_v(out@) + rest);
                    },
                    Err(_) => {},
                }
            }
        }
    }
    assert(changes_v(out@) + Seq::<(i64, Seq<ValueV>, Option<Seq<ValueV>>)>::empty() =~= changes_v(out@));
    Ok(out)
}

fn seen_rows(list: &Vec<Change>) -> (r: Vec<Vec<Value>>)
    ensures
        rows_view(r@) == seen(changes_v(list@)),
        forall|w: int| #[trigger] changes_wide(list@, w) ==> rows_wide(rows_view(r@), w),
{
    let n: usize = list.len();
    let ghost want = seen(changes_v(list@));
    let mut out: Vec<Vec<Value>> = Vec::new();
    for i in 0..n
        invariant
            n == list@.len(),
            want == seen(changes_v(list@)),
            out@.len() == i,
            forall|k: int| 0 <= k < i ==> row_view((#[trigger] out@[k])@) == want[k],
    {
        match &list[i].to {
            Some(row) => {
                out.push(clone_row(row));
            },
            None => {
                out.push(clone_row(&list[i].was));
            },
        }
    }
    assert(rows_view(out@) =~= want);
    assert forall|w: int| #[trigger] changes_wide(list@, w) implies rows_wide(rows_view(out@), w) by {
        assert forall|i: int| 0 <= i < rows_view(out@).len() implies (#[trigger] rows_view(out@)[i]).len() == w by {
            assert(change_wide(list@[i], w));
            assert(rows_view(out@)[i] == want[i]);
        }
    }
    out
}

/// A statement that runs with the answers of its store.
struct Writer<'a> {
    env: &'a Env<'a>,
    journal: Journal<'a>,
    depth: usize,
}

/// `r` is the outcome `want` of a step.
spec fn went<T>(a: Writer, b: Writer, r: Result<T, Stop>, want: Result<(T, int), StopV>) -> bool {
    &&& b.env == a.env
    &&& b.depth == a.depth
    &&& read_on(a.journal, b.journal, r, want)
}

/// A writer that has read on.
spec fn onward(a: Writer, b: Writer) -> bool {
    &&& b.env == a.env
    &&& b.depth == a.depth
    &&& b.journal.replies == a.journal.replies
    &&& b.journal.wf()
}

fn fail<T>(e: Error) -> (r: Result<T, Stop>)
    ensures
        r == Err::<T, Stop>(Stop::Fail(e)),
{
    Err(Stop::Fail(e))
}

impl<'a> Writer<'a> {

    spec fn wf(&self) -> bool {
        self.journal.wf()
    }

    spec fn cx(&self) -> Cx {
        Cx { env: self.env@, j: self.journal.seq() }
    }

    spec fn run(&self) -> Nested {
        nested(self.env@, self.journal.seq(), self.depth as nat)
    }

    spec fn k(&self) -> int {
        self.journal.at as int
    }

    /// A statement inside a trigger.
    fn inner(&mut self, stmt: &Stmt) -> (r: Result<usize, Stop>)
        requires
            old(self).wf(),
        ensures
            went(*old(self), *final(self), (match r {
                        Ok(n) => Ok(n as int),
                        Err(e) => Err(e),
                }), old(self).run()(stmt@, old(self).k())),
        decreases old(self).depth, 0int,
    {
        if self.depth == 0 {
            return fail(sql_lit("triggers demasiado anidados"));
        }
        let none: Vec<Value> = Vec::new();
        assert(row_view(none@) =~= Seq::empty());
        self.depth = self.depth - 1;
        let r = self.execute(stmt, &none);
        self.depth = self.depth + 1;
        r
    }

    #[verifier::spinoff_prover]
    #[verifier::rlimit(40)]
    fn body(&mut self, def: &TableDef, stmts: &Vec<Stmt>, before: Option<&Vec<Value>>, after: Option<&Vec<Value>>) -> (r: Result<(), Stop>)
        requires
            old(self).wf(),
            rows_of(def@, before, after),
        ensures
            went(*old(self), *final(self), r, body_from(old(self).run(), def@, stmts_v(stmts@), opt_row(before), opt_row(after), 0, old(self).k())),
        decreases old(self).depth, 1int,
    {
        let n: usize = stmts.len();
        let ghost ss = stmts_v(stmts@);
        let ghost b = opt_row(before);
        let ghost a = opt_row(after);
        let ghost want = body_from(self.run(), def@, ss, b, a, 0, self.k());
        for i in 0..n
            invariant
                n == stmts@.len(),
                ss == stmts_v(stmts@),
                b == opt_row(before),
                a == opt_row(after),
                rows_of(def@, before, after),
                onward(*old(self), *self),
                want == body_from(old(self).run(), def@, ss, b, a, 0, old(self).k()),
                want == body_from(old(self).run(), def@, ss, b, a, i as int, self.k()),
        {
            assert(ss[i as int] == stmts@[i as int]@);
            let stmt = hold(subst_stmt(&stmts[i], def, before, after))?;
            let _n: usize = self.inner(&stmt)?;
        }
        Ok(())
    }

    #[verifier::spinoff_prover]
    #[verifier::rlimit(40)]
    fn fire_inner(&mut self, def: &TableDef, ts: &Vec<TriggerDef>, before: Option<&Vec<Value>>, after: Option<&Vec<Value>>) -> (r: Result<(), Stop>)
        requires
            old(self).wf(),
            rows_of(def@, before, after),
        ensures
            went(*old(self), *final(self), r, fired_from(old(self).cx(), old(self).run(), def@, triggers_v(ts@), opt_row(before), opt_row(after), 0, old(self).k())),
        decreases old(self).depth, 2int,
    {
        let n: usize = ts.len();
        let ghost tv = triggers_v(ts@);
        let ghost b = opt_row(before);
        let ghost a = opt_row(after);
        let ghost want = fired_from(self.cx(), self.run(), def@, tv, b, a, 0, self.k());
        for i in 0..n
            invariant
                n == ts@.len(),
                tv == triggers_v(ts@),
                b == opt_row(before),
                a == opt_row(after),
                rows_of(def@, before, after),
                onward(*old(self), *self),
                want == fired_from(old(self).cx(), old(self).run(), def@, tv, b, a, 0, old(self).k()),
                want == fired_from(old(self).cx(), old(self).run(), def@, tv, b, a, i as int, self.k()),
        {
            assert(tv[i as int] == ts@[i as int]@);
            let stmts = hold(parse_many(ts[i].body.as_str(), self.env.reals))?;
            self.body(def, &stmts, before, after)?;
        }
        Ok(())
    }

    /// Runs triggers for a row.
    #[verifier::spinoff_prover]
    fn fire(&mut self, def: &TableDef, ts: &Vec<TriggerDef>, before: Option<&Vec<Value>>, after: Option<&Vec<Value>>) -> (r: Result<(), Stop>)
        requires
            old(self).wf(),
            rows_of(def@, before, after),
        ensures
            went(*old(self), *final(self), r, fired(old(self).cx(), old(self).run(), def@, triggers_v(ts@), opt_row(before), opt_row(after), old(self).k())),
        decreases old(self).depth, 3int,
    {
        proof {
            reveal(fired);
        }
        assert(triggers_v(ts@).len() == ts@.len());
        if ts.len() == 0 {
            return Ok(());
        }
        self.journal.done(Action::EnterTrigger)?;
        let r = self.fire_inner(def, ts, before, after);
        match r {
            Err(Stop::Ask(a)) => Err(Stop::Ask(a)),
            Err(Stop::Fail(e)) => {
                self.journal.done(Action::ExitTrigger)?;
                Err(Stop::Fail(e))
            },
            Ok(_) => self.journal.done(Action::ExitTrigger),
        }
    }

    /// The triggers of a table before and after an event.
    fn triggers(&mut self, table: &str, event: TriggerEvent) -> (r: Result<(Vec<TriggerDef>, Vec<TriggerDef>), Stop>)
        requires
            old(self).wf(),
        ensures
            went(*old(self), *final(self), (match r {
                        Ok((x, y)) => Ok((triggers_v(x@), triggers_v(y@))),
                        Err(e) => Err(e),
                }), triggers_of(old(self).cx(), table@, event, old(self).k())),
    {
        proof {
            reveal(triggers_of);
        }
        let before = self.journal.triggers(Action::Triggers { table: table.to_owned(), event, timing: TriggerTiming::Before })?;
        let after = self.journal.triggers(Action::Triggers { table: table.to_owned(), event, timing: TriggerTiming::After })?;
        Ok((before, after))
    }

    fn source(&mut self, source: &InsertSource, params: &Vec<Value>) -> (r: Result<Vec<Vec<Expr>>, Stop>)
        requires
            old(self).wf(),
        ensures
            went(*old(self), *final(self), (match r {
                        Ok(s) => Ok(exprss_v(s@)),
                        Err(e) => Err(e),
                }), source_rows(old(self).cx(), source@, row_view(params@), old(self).k())),
    {
        match source {
            InsertSource::Values(rows) => Ok(clone_exprss(rows)),
            InsertSource::Select(q) => {
                let out = self.journal.output(Action::Query { query: clone_select(q), params: clone_row(params) })?;
                Ok(literal_rows(&out.rows))
            },
        }
    }

    #[verifier::spinoff_prover]
    #[verifier::rlimit(40)]
    fn unique_conflict(&mut self, def: &TableDef, row: &Vec<Value>) -> (r: Result<Option<i64>, Stop>)
        requires
            old(self).wf(),
            def_ok(def@),
            row@.len() == def@.columns.len(),
        ensures
            went(*old(self), *final(self), r, same_key(old(self).cx(), def@, row_view(row@), 0, old(self).k())),
    {
        let n: usize = def.indexes.len();
        let ghost dv = def@;
        let ghost rv = row_view(row@);
        let ghost want = same_key(self.cx(), dv, rv, 0, self.k());
        for i in 0..n
            invariant
                n == def.indexes@.len(),
                dv == def@,
                rv == row_view(row@),
                def_ok(dv),
                row@.len() == dv.columns.len(),
                onward(*old(self), *self),
                want == same_key(old(self).cx(), dv, rv, 0, old(self).k()),
                want == same_key(old(self).cx(), dv, rv, i as int, self.k()),
        {
            assert(dv.indexes[i as int] == def.indexes@[i as int]@);
            let idx = &def.indexes[i];
            if idx.unique {
                assert forall|k: int| 0 <= k < idx.columns@.len() implies 0 <= (#[trigger] idx.columns@[k]) < row@.len() by {
                    assert(dv.indexes[i as int].columns[k] == idx.columns@[k]);
                }
                assert(ints(idx.columns@) =~= ints(dv.indexes[i as int].columns));
                let key = pick_values(row, &idx.columns);
                if !has_null(&key) {
                    let hit = self.journal.first_id(Action::Lookup { table: clone_table_def(def), index: clone_index_def(idx), key })?;
                    if hit.is_some() {
                        return Ok(hit);
                    }
                }
            }
        }
        Ok(None)
    }

    /// The identifier of a row that the proposed one is in conflict with.
    #[verifier::spinoff_prover]
    fn find_conflict(&mut self, def: &TableDef, row: &Vec<Value>) -> (r: Result<Option<i64>, Stop>)
        requires
            old(self).wf(),
            def_ok(def@),
            row@.len() == def@.columns.len(),
        ensures
            went(*old(self), *final(self), r, conflict(old(self).cx(), def@, row_view(row@), old(self).k())),
    {
        proof {
            reveal(conflict);
        }
        if let Some(pk) = def.rowid_alias {
            assert(row_view(row@)[pk as int] == row@[pk as int]@);
            if let Value::Integer(id) = &row[pk] {
                assert(def@.columns.len() == def.columns@.len());
                let found = self.journal.row(Action::Row { table: clone_table_def(def), rowid: *id }, def.columns.len())?;
                if found.is_some() {
                    return Ok(Some(*id));
                }
            }
        }
        self.unique_conflict(def, row)
    }

    /// Changes the row in conflict.
    #[verifier::spinoff_prover]
    #[verifier::rlimit(40)]
    fn upsert_update(&mut self, w: &Insert<'_>, id: i64, given: &Vec<Value>, sets: &Vec<(String, Expr)>, cond: &Option<Expr>) -> (r: Result<Option<Vec<Value>>, Stop>)
        requires
            old(self).wf(),
            w.ok(),
            given@.len() == w.def@.columns.len(),
        ensures
            went(*old(self), *final(self), (match r {
                        Ok(o) => Ok(opt_row_v(o)),
                        Err(e) => Err(e),
                }), upserted_row(old(self).cx(), old(self).run(), w.v(), id, row_view(given@), string_expr_pairs_v(sets@), opt_v(*cond), old(self).k())),
            r matches Ok(Some(row)) ==> row@.len() == w.def@.columns.len(),
        decreases old(self).depth, 4int,
    {
        proof {
            reveal(upserted_row);
        }
        assert(w.def@.columns.len() == w.def.columns@.len());
        let found = self.journal.row(Action::Row { table: clone_table_def(w.def), rowid: id }, w.def.columns.len())?;
        let row = match found {
            Some(row) => row,
            None => {
                return fail(sql_lit("la fila en conflicto desapareció"));
            },
        };
        let to = hold(upsert_values(&self.env.branch(self.journal.at).branch(1), w.table, w.def, &row, given, sets, cond, w.params))?;
        let new = match to {
            Some(new) => new,
            None => {
                return Ok(None);
            },
        };
        hold(check_row(&self.env.branch(self.journal.at).branch(2), &w.checks, &w.schema, &new, w.params))?;
        self.fire(w.def, &w.update_before, Some(&row), Some(&new))?;
        self.journal.done(Action::UpdateRow { table: clone_table_def(w.def), rowid: id, row: clone_row(&new) })?;
        self.fire(w.def, &w.update_after, Some(&row), Some(&new))?;
        Ok(Some(new))
    }

    #[verifier::spinoff_prover]
    #[verifier::rlimit(40)]
    fn add_row(&mut self, w: &Insert<'_>, row: Vec<Value>) -> (r: Result<Option<Vec<Value>>, Stop>)
        requires
            old(self).wf(),
            w.ok(),
            row@.len() == w.def@.columns.len(),
        ensures
            went(*old(self), *final(self), (match r {
                        Ok(o) => Ok(opt_row_v(o)),
                        Err(e) => Err(e),
                }), new_row(old(self).cx(), old(self).run(), w.v(), row_view(row@), old(self).k())),
            r matches Ok(Some(x)) ==> x@.len() == w.def@.columns.len(),
        decreases old(self).depth, 4int,
    {
        proof {
            reveal(new_row);
        }
        hold(check_row(&self.env.branch(self.journal.at).branch(2), &w.checks, &w.schema, &row, w.params))?;
        self.fire(w.def, &w.before, None, Some(&row))?;
        let id: i64 = self.journal.id(Action::InsertRow { table: clone_table_def(w.def), row: clone_row(&row) })?;
        let mut stored = row;
        let ghost rv = row_view(stored@);
        if let Some(a) = w.def.rowid_alias {
            stored.set(a, Value::Integer(id));
            assert(row_view(stored@) =~= rv.update(a as int, ValueV::Integer(id)));
        }
        self.fire(w.def, &w.after, None, Some(&stored))?;
        Ok(Some(stored))
    }

    #[verifier::spinoff_prover]
    #[verifier::rlimit(40)]
    fn insert_row(&mut self, w: &Insert<'_>, es: &Vec<Expr>) -> (r: Result<Option<Vec<Value>>, Stop>)
        requires
            old(self).wf(),
            w.ok(),
        ensures
            went(*old(self), *final(self), (match r {
                        Ok(o) => Ok(opt_row_v(o)),
                        Err(e) => Err(e),
                }), inserted_row(old(self).cx(), old(self).run(), w.v(), exprs_v(es@), old(self).k())),
            r matches Ok(Some(x)) ==> x@.len() == w.def@.columns.len(),
        decreases old(self).depth, 5int,
    {
        proof {
            reveal(inserted_row);
        }
        let row = hold(insert_values(&self.env.branch(self.journal.at).branch(0), w.def, w.columns, es, w.params))?;
        if let Some(oc) = w.on_conflict {
            let hit = self.find_conflict(w.def, &row)?;
            if let Some(id) = hit {
                return match oc {
                    OnConflict::Nothing => Ok(None),
                    OnConflict::Update { sets, where_clause } => self.upsert_update(w, id, &row, sets, where_clause),
                };
            }
        }
        self.add_row(w, row)
    }

    #[verifier::spinoff_prover]
    #[verifier::rlimit(40)]
    fn insert_rows(&mut self, w: &Insert<'_>, rows: &Vec<Vec<Expr>>) -> (r: Result<Vec<Vec<Value>>, Stop>)
        requires
            old(self).wf(),
            w.ok(),
        ensures
            went(*old(self), *final(self), (match r {
                        Ok(s) => Ok(rows_view(s@)),
                        Err(e) => Err(e),
                }), inserted_rows(old(self).cx(), old(self).run(), w.v(), exprss_v(rows@), 0, old(self).k())),
            r is Ok ==> rows_wide(rows_view(r->Ok_0@), w.def@.columns.len() as int),
        decreases old(self).depth, 6int,
    {
        let n: usize = rows.len();
        let ghost rv = exprss_v(rows@);
        let ghost cx = self.cx();
        let ghost run = self.run();
        let ghost want = inserted_rows(cx, run, w.v(), rv, 0, self.k());
        let mut out: Vec<Vec<Value>> = Vec::new();
        assert(rows_view(out@) =~= Seq::empty());
        assert(want is Ok ==> Seq::empty() + (want->Ok_0).0 =~= (want->Ok_0).0);
        for i in 0..n
            invariant
                n == rows@.len(),
                rv == exprss_v(rows@),
                w.ok(),
                cx == old(self).cx(),
                run == old(self).run(),
                onward(*old(self), *self),
                rows_wide(rows_view(out@), w.def@.columns.len() as int),
                want == inserted_rows(cx, run, w.v(), rv, 0, old(self).k()),
                (match inserted_rows(cx, run, w.v(), rv, i as int, self.k()) {
                        Ok((rest, k)) => want == Ok::<_, StopV>((rows_view(out@) + rest, k)),
                        Err(e) => want == Err::<(Seq<Seq<ValueV>>, int), StopV>(e),
                }),
        {
            assert(rv[i as int] == exprs_v(rows@[i as int]@));
            let ghost start = rows_view(out@);
            let row = self.insert_row(w, &rows[i])?;
            let ghost ov = opt_seq(opt_row_v(row));
            match row {
                Some(x) => {
                    assert(row_view(x@).len() == x@.len());
                    out.push(x);
                },
                None => {},
            }
            assert(rows_view(out@) =~= start + ov);
            proof {
                match inserted_rows(cx, run, w.v(), rv, i + 1, self.k()) {
                    Ok((rest, k)) => {
                        assert(start + (ov + rest) =~= rows_view(out@) + rest);
                    },
                    Err(_) => {},
                }
            }
        }
        assert(rows_view(out@) + Seq::<Seq<ValueV>>::empty() =~= rows_view(out@));
        Ok(out)
    }

    fn give_back(&self, table: &str, def: &TableDef, items: &Option<Vec<SelectItem>>, rows: &Vec<Vec<Value>>, params: &Vec<Value>) -> (r: Result<Option<SelectOut>, Error>)
        requires
            def_ok(def@),
            rows_wide(rows_view(rows@), def@.columns.len() as int),
        ensures
            (match opt_returned(branch(branch(self.env@, self.k()), 5), table@, def@, opt_items(*items), rows_view(rows@), row_view(params@)) {
                    Ok(o) => r is Ok && opt_out(r->Ok_0) == o,
                    Err(e) => r is Err && r->Err_0@ == e,
            }),
            r matches Ok(Some(out)) ==> fits(out@),
    {
        proof {
            reveal(opt_returned);
        }
        match items {
            None => Ok(None),
            Some(its) => {
                let out = eval_returning(&self.env.branch(self.journal.at).branch(5), table, def, its, rows, params)?;
                Ok(Some(out))
            },
        }
    }

    #[verifier::spinoff_prover]
    #[verifier::rlimit(60)]
    fn insert_into(&mut self, table: &str, def: &TableDef, columns: &Option<Vec<String>>, rows: &Vec<Vec<Expr>>, on_conflict: &Option<OnConflict>, returning: &Option<Vec<SelectItem>>, params: &Vec<Value>) -> (r: Result<(usize, Option<SelectOut>), Stop>)
        requires
            old(self).wf(),
            def_ok(def@),
        ensures
            went(*old(self), *final(self), (match r {
                        Ok((n, o)) => Ok((n as int, opt_out(o))),
                        Err(e) => Err(e),
                }), inserted(old(self).cx(), old(self).run(), table@, def@, opt_names(*columns), exprss_v(rows@), opt_conflict(*on_conflict), opt_items(*returning), row_view(params@), old(self).k())),
            r matches Ok((_, Some(out))) ==> fits(out@),
        decreases old(self).depth, 7int,
    {
        proof {
            reveal(inserted);
        }
        let (ib, ia) = self.triggers(def.name.as_str(), TriggerEvent::Insert)?;
        let (before, before_stmt) = split_for_each(ib);
        let (after, after_stmt) = split_for_each(ia);
        let (ub, ua): (Vec<TriggerDef>, Vec<TriggerDef>) = if on_conflict.is_some() {
            self.triggers(def.name.as_str(), TriggerEvent::Update)?
        } else {
            (Vec::new(), Vec::new())
        };
        assert(on_conflict is None ==> triggers_v(ub@) =~= Seq::empty() && triggers_v(ua@) =~= Seq::empty());
        let (update_before, _ub) = split_for_each(ub);
        let (update_after, _ua) = split_for_each(ua);
        let checks = hold(parse_checks(def, self.env.reals))?;
        self.fire(def, &before_stmt, None, None)?;
        let schema = QuerySchema::single(table, clone_table_def(def));
        assert(schema@ =~= one_table(table@, def@));
        assert(row_width(schema@.tables) == def@.columns.len());
        let w = Insert { table, def, columns, on_conflict, params, checks, before, after, update_before, update_after, schema };
        let done = self.insert_rows(&w, rows)?;
        self.fire(def, &after_stmt, None, None)?;
        let out = hold(self.give_back(table, def, returning, &done, params))?;
        assert(rows_view(done@).len() == done@.len());
        Ok((done.len(), out))
    }

    /// The columns and the rows of a view.
    fn view_rows(&mut self, name: &str, text: &str) -> (r: Result<SelectOut, Stop>)
        requires
            old(self).wf(),
        ensures
            went(*old(self), *final(self), (match r {
                        Ok(o) => Ok(o@),
                        Err(e) => Err(e),
                }), view_result(old(self).cx(), name@, text@, old(self).k())),
            r is Ok ==> fits(r->Ok_0@),
    {
        proof {
            reveal(view_result);
        }
        match hold(parse(text, self.env.reals))? {
            Stmt::Select(q) => {
                let none: Vec<Value> = Vec::new();
                assert(row_view(none@) =~= Seq::empty());
                self.journal.output(Action::Query { query: q, params: none })
            },
            _ => fail(sql_err(cat3("la vista «", name, "» no define un SELECT"))),
        }
    }

    fn instead_of(&mut self, view: &str, event: TriggerEvent) -> (r: Result<Vec<TriggerDef>, Stop>)
        requires
            old(self).wf(),
        ensures
            went(*old(self), *final(self), (match r {
                        Ok(s) => Ok(triggers_v(s@)),
                        Err(e) => Err(e),
                }), instead_triggers(old(self).cx(), view@, event, old(self).k())),
    {
        proof {
            reveal(instead_triggers);
        }
        let ts = self.journal.triggers(Action::Triggers { table: view.to_owned(), event, timing: TriggerTiming::InsteadOf })?;
        assert(triggers_v(ts@).len() == ts@.len());
        if ts.len() == 0 {
            return match event {
                TriggerEvent::Insert => fail(sql_lit("no se puede INSERT en una vista sin un trigger INSTEAD OF")),
                TriggerEvent::Update => fail(sql_lit("no se puede UPDATE una vista sin un trigger INSTEAD OF")),
                TriggerEvent::Delete => fail(sql_lit("no se puede DELETE en una vista sin un trigger INSTEAD OF")),
            };
        }
        Ok(ts)
    }

    #[verifier::spinoff_prover]
    #[verifier::rlimit(40)]
    fn run_instead_of_insert(&mut self, view: &str, text: &str, columns: &Option<Vec<String>>, rows: &Vec<Vec<Expr>>, params: &Vec<Value>) -> (r: Result<usize, Stop>)
        requires
            old(self).wf(),
        ensures
            went(*old(self), *final(self), (match r {
                        Ok(n) => Ok(n as int),
                        Err(e) => Err(e),
                }), inserted_in_view(old(self).cx(), old(self).run(), view@, text@, opt_names(*columns), exprss_v(rows@), row_view(params@), old(self).k())),
        decreases old(self).depth, 7int,
    {
        proof {
            reveal(inserted_in_view);
        }
        let ghost cx = self.cx();
        let ghost run = self.run();
        let ts = self.instead_of(view, TriggerEvent::Insert)?;
        let out = self.view_rows(view, text)?;
        let def = synthetic_cte_def(view, &out.columns);
        let n: usize = rows.len();
        let ghost rv = exprss_v(rows@);
        let ghost cols = opt_names(*columns);
        let ghost pv = row_view(params@);
        let ghost tv = triggers_v(ts@);
        let ghost want = view_inserts(cx, run, def@, tv, cols, rv, pv, 0, self.k());
        #[verifier::loop_isolation(false)]
        for i in 0..n
            invariant
                onward(*old(self), *self),
                want == view_inserts(cx, run, def@, tv, cols, rv, pv, i as int, self.k()),
        {
            assert(rv[i as int] == exprs_v(rows@[i as int]@));
            let row = hold(view_insert_values(&self.env.branch(self.journal.at).branch(0).branch(i), &def, columns, &rows[i], params))?;
            self.fire(&def, &ts, None, Some(&row))?;
        }
        Ok(n)
    }

    #[verifier::spinoff_prover]
    #[verifier::rlimit(40)]
    fn change_view(&mut self, def: &TableDef, schema: &QuerySchema, ts: &Vec<TriggerDef>, cond: &Option<Expr>, change: Option<(&Vec<usize>, &Vec<(String, Expr)>)>, rows: &Vec<Vec<Value>>, params: &Vec<Value>) -> (r: Result<usize, Stop>)
        requires
            old(self).wf(),
            schema.wf(),
            row_width(schema@.tables) == def@.columns.len(),
            change_ok(change, def@.columns.len() as int),
            rows_wide(rows_view(rows@), def@.columns.len() as int),
        ensures
            went(*old(self), *final(self), (match r {
                        Ok(n) => Ok(n as int),
                        Err(e) => Err(e),
                }), view_changes(old(self).cx(), old(self).run(), schema@, def@, triggers_v(ts@), opt_v(*cond), change_v(change), rows_view(rows@), row_view(params@), 0, 0, old(self).k())),
        decreases old(self).depth, 4int,
    {
        let ghost cx = self.cx();
        let ghost run = self.run();
        let n: usize = rows.len();
        let ghost rv = rows_view(rows@);
        let ghost pv = row_view(params@);
        let ghost tv = triggers_v(ts@);
        let ghost cv = opt_v(*cond);
        let ghost chv = change_v(change);
        let ghost want = view_changes(cx, run, schema@, def@, tv, cv, chv, rv, pv, 0, 0, self.k());
        let mut count: usize = 0;
        #[verifier::loop_isolation(false)]
        for i in 0..n
            invariant
                onward(*old(self), *self),
                count <= i,
                want == view_changes(cx, run, schema@, def@, tv, cv, chv, rv, pv, i as int, count as int, self.k()),
        {
            assert(rv[i as int] == row_view(rows@[i as int]@));
            assert(rv[i as int].len() == rows@[i as int]@.len());
            let row: &Vec<Value> = &rows[i];
            if hold(is_selected(&self.env.branch(self.journal.at).branch(4).branch(i), cond, schema, row, params))? {
                let to = hold(after_change(&self.env.branch(self.journal.at).branch(6).branch(i), schema, change, row, params))?;
                let after: Option<&Vec<Value>> = match &to {
                    Some(x) => Some(x),
                    None => None,
                };
                assert(opt_row(after) == opt_row_v(to));
                self.fire(def, ts, Some(row), after)?;
                count = count + 1;
            }
        }
        Ok(count)
    }

    #[verifier::spinoff_prover]
    #[verifier::rlimit(40)]
    fn run_instead_of_update(&mut self, view: &str, text: &str, sets: &Vec<(String, Expr)>, cond: &Option<Expr>, params: &Vec<Value>) -> (r: Result<usize, Stop>)
        requires
            old(self).wf(),
        ensures
            went(*old(self), *final(self), (match r {
                        Ok(n) => Ok(n as int),
                        Err(e) => Err(e),
                }), updated_in_view(old(self).cx(), old(self).run(), view@, text@, string_expr_pairs_v(sets@), opt_v(*cond), row_view(params@), old(self).k())),
        decreases old(self).depth, 7int,
    {
        proof {
            reveal(updated_in_view);
        }
        let ts = self.instead_of(view, TriggerEvent::Update)?;
        let out = self.view_rows(view, text)?;
        let def = synthetic_cte_def(view, &out.columns);
        let schema = QuerySchema::single(view, clone_table_def(&def));
        assert(schema@ =~= one_table(view@, def@));
        assert(row_width(schema@.tables) == def@.columns.len());
        assert(strings_v(out.columns@).len() == out.columns@.len());
        let at = hold(resolve_sets(&def, true, sets, &schema))?;
        hold(check_condition(cond, &schema))?;
        self.change_view(&def, &schema, &ts, cond, Some((&at, sets)), &out.rows, params)
    }

    #[verifier::spinoff_prover]
    #[verifier::rlimit(40)]
    fn run_instead_of_delete(&mut self, view: &str, text: &str, cond: &Option<Expr>, params: &Vec<Value>) -> (r: Result<usize, Stop>)
        requires
            old(self).wf(),
        ensures
            went(*old(self), *final(self), (match r {
                        Ok(n) => Ok(n as int),
                        Err(e) => Err(e),
                }), deleted_in_view(old(self).cx(), old(self).run(), view@, text@, opt_v(*cond), row_view(params@), old(self).k())),
        decreases old(self).depth, 7int,
    {
        proof {
            reveal(deleted_in_view);
        }
        let ts = self.instead_of(view, TriggerEvent::Delete)?;
        let out = self.view_rows(view, text)?;
        let def = synthetic_cte_def(view, &out.columns);
        let schema = QuerySchema::single(view, clone_table_def(&def));
        assert(schema@ =~= one_table(view@, def@));
        assert(row_width(schema@.tables) == def@.columns.len());
        assert(strings_v(out.columns@).len() == out.columns@.len());
        hold(check_condition(cond, &schema))?;
        self.change_view(&def, &schema, &ts, cond, None, &out.rows, params)
    }

    #[verifier::spinoff_prover]
    #[verifier::rlimit(40)]
    fn write_change(&mut self, schema: &QuerySchema, def: &TableDef, checks: &Vec<Expr>, before: &Vec<TriggerDef>, after: &Vec<TriggerDef>, c: &Change, params: &Vec<Value>) -> (r: Result<(), Stop>)
        requires
            old(self).wf(),
            schema.wf(),
            row_width(schema@.tables) == def@.columns.len(),
            change_wide(*c, def@.columns.len() as int),
        ensures
            went(*old(self), *final(self), r, changed_row(old(self).cx(), old(self).run(), schema@, def@, exprs_v(checks@), triggers_v(before@), triggers_v(after@), (c.rowid, row_view(c.was@), opt_row_v(c.to)), row_view(params@), old(self).k())),
        decreases old(self).depth, 4int,
    {
        proof {
            reveal(changed_row);
        }
        let to: Option<&Vec<Value>> = match &c.to {
            Some(x) => Some(x),
            None => None,
        };
        assert(opt_row(to) == opt_row_v(c.to));
        if let Some(row) = to {
            hold(check_row(&self.env.branch(self.journal.at).branch(2), checks, schema, row, params))?;
        }
        self.fire(def, before, Some(&c.was), to)?;
        match to {
            Some(row) => {
                self.journal.done(Action::UpdateRow { table: clone_table_def(def), rowid: c.rowid, row: clone_row(row) })?;
            },
            None => {
                self.journal.done(Action::DeleteRow { table: clone_table_def(def), rowid: c.rowid })?;
            },
        }
        self.fire(def, after, Some(&c.was), to)
    }

    #[verifier::spinoff_prover]
    #[verifier::rlimit(40)]
    fn write_changes(&mut self, schema: &QuerySchema, def: &TableDef, checks: &Vec<Expr>, before: &Vec<TriggerDef>, after: &Vec<TriggerDef>, list: &Vec<Change>, params: &Vec<Value>) -> (r: Result<(), Stop>)
        requires
            old(self).wf(),
            schema.wf(),
            row_width(schema@.tables) == def@.columns.len(),
            changes_wide(list@, def@.columns.len() as int),
        ensures
            went(*old(self), *final(self), r, changed_rows(old(self).cx(), old(self).run(), schema@, def@, exprs_v(checks@), triggers_v(before@), triggers_v(after@), changes_v(list@), row_view(params@), 0, old(self).k())),
        decreases old(self).depth, 5int,
    {
        let ghost cx = self.cx();
        let ghost run = self.run();
        let n: usize = list.len();
        let ghost lv = changes_v(list@);
        let ghost pv = row_view(params@);
        let ghost bv = triggers_v(before@);
        let ghost av = triggers_v(after@);
        let ghost cv = exprs_v(checks@);
        let ghost want = changed_rows(cx, run, schema@, def@, cv, bv, av, lv, pv, 0, self.k());
        #[verifier::loop_isolation(false)]
        for i in 0..n
            invariant
                onward(*old(self), *self),
                want == changed_rows(cx, run, schema@, def@, cv, bv, av, lv, pv, i as int, self.k()),
        {
            assert(change_wide(list@[i as int], def@.columns.len() as int));
            assert(lv[i as int] == (list@[i as int].rowid, row_view(list@[i as int].was@), opt_row_v(list@[i as int].to)));
            self.write_change(schema, def, checks, before, after, &list[i], params)?;
        }
        Ok(())
    }

    /// An UPDATE or a DELETE on a table.
    #[verifier::spinoff_prover]
    #[verifier::rlimit(80)]
    fn change_table(&mut self, table: &str, def: &TableDef, schema: &QuerySchema, event: TriggerEvent, change: Option<(&Vec<usize>, &Vec<(String, Expr)>)>, cond: &Option<Expr>, returning: &Option<Vec<SelectItem>>, params: &Vec<Value>) -> (r: Result<(usize, Option<SelectOut>), Stop>)
        requires
            old(self).wf(),
            def_ok(def@),
            schema.wf(),
            schema@ == one_table(table@, def@),
            row_width(schema@.tables) == def@.columns.len(),
            change_ok(change, def@.columns.len() as int),
        ensures
            went(*old(self), *final(self), (match r {
                        Ok((n, o)) => Ok((n as int, opt_out(o))),
                        Err(e) => Err(e),
                }), changed(old(self).cx(), old(self).run(), table@, def@, event, change_v(change), opt_v(*cond), opt_items(*returning), row_view(params@), old(self).k())),
            r matches Ok((_, Some(out))) ==> fits(out@),
        decreases old(self).depth, 6int,
    {
        proof {
            reveal(changed);
        }
        hold(check_condition(cond, schema))?;
        let (tb, ta) = self.triggers(def.name.as_str(), event)?;
        let (before, before_stmt) = split_for_each(tb);
        let (after, after_stmt) = split_for_each(ta);
        let access = hold(candidate_access(&self.env.branch(self.journal.at).branch(3), table, def, cond, params))?;
        assert(def@.columns.len() == def.columns@.len());
        let rows = self.journal.rows(Action::Rows { table: clone_table_def(def), access }, def.columns.len())?;
        let list = hold(find_changes(&self.env.branch(self.journal.at), schema, cond, change, rows, params))?;
        let checks: Vec<Expr> = if change.is_some() {
            hold(parse_checks(def, self.env.reals))?
        } else {
            Vec::new()
        };
        assert(change is None ==> exprs_v(checks@) =~= Seq::empty());
        self.fire(def, &before_stmt, None, None)?;
        self.write_changes(schema, def, &checks, &before, &after, &list, params)?;
        self.fire(def, &after_stmt, None, None)?;
        let shown = seen_rows(&list);
        let out = hold(self.give_back(table, def, returning, &shown, params))?;
        assert(changes_v(list@).len() == list@.len());
        Ok((list.len(), out))
    }

    fn view_text(&mut self, name: &str, returning: bool) -> (r: Result<String, Stop>)
        requires
            old(self).wf(),
        ensures
            went(*old(self), *final(self), (match r {
                        Ok(s) => Ok(s@),
                        Err(e) => Err(e),
                }), view_to_change(old(self).cx(), name@, returning, old(self).k())),
    {
        proof {
            reveal(view_to_change);
        }
        match self.journal.text(Action::FindView(name.to_owned()))? {
            None => fail(sql_err(cat("tabla desconocida: ", name))),
            Some(text) => {
                if returning {
                    return fail(sql_lit("RETURNING no se admite al escribir en una vista"));
                }
                Ok(text)
            },
        }
    }

    #[verifier::spinoff_prover]
    #[verifier::rlimit(40)]
    fn run_insert(&mut self, table: &str, columns: &Option<Vec<String>>, source: &InsertSource, on_conflict: &Option<OnConflict>, returning: &Option<Vec<SelectItem>>, params: &Vec<Value>) -> (r: Result<(usize, Option<SelectOut>), Stop>)
        requires
            old(self).wf(),
        ensures
            went(*old(self), *final(self), (match r {
                        Ok((n, o)) => Ok((n as int, opt_out(o))),
                        Err(e) => Err(e),
                }), rows_written(old(self).cx(), old(self).run(), (StmtV::Insert { table: table@, columns: opt_names(*columns), source: source@, on_conflict: opt_conflict(*on_conflict), returning: opt_items(*returning) }), row_view(params@), old(self).k())),
            r matches Ok((_, Some(out))) ==> fits(out@),
        decreases old(self).depth, 8int,
    {
        proof {
            reveal(rows_written);
        }
        let rows = self.source(source, params)?;
        match self.journal.table(Action::FindTable(table.to_owned()))? {
            Some(def) => self.insert_into(table, &def, columns, &rows, on_conflict, returning, params),
            None => match self.journal.text(Action::FindView(table.to_owned()))? {
                None => fail(sql_err(cat("tabla desconocida: ", table))),
                Some(text) => {
                    if returning.is_some() || on_conflict.is_some() {
                        return fail(sql_lit("RETURNING / ON CONFLICT no se admiten al escribir en una vista"));
                    }
                    let n: usize = self.run_instead_of_insert(table, text.as_str(), columns, &rows, params)?;
                    Ok((n, None))
                },
            },
        }
    }

    #[verifier::spinoff_prover]
    #[verifier::rlimit(40)]
    fn run_update(&mut self, table: &str, sets: &Vec<(String, Expr)>, cond: &Option<Expr>, returning: &Option<Vec<SelectItem>>, params: &Vec<Value>) -> (r: Result<(usize, Option<SelectOut>), Stop>)
        requires
            old(self).wf(),
        ensures
            went(*old(self), *final(self), (match r {
                        Ok((n, o)) => Ok((n as int, opt_out(o))),
                        Err(e) => Err(e),
                }), rows_written(old(self).cx(), old(self).run(), (StmtV::Update { table: table@, sets: string_expr_pairs_v(sets@), where_clause: opt_v(*cond), returning: opt_items(*returning) }), row_view(params@), old(self).k())),
            r matches Ok((_, Some(out))) ==> fits(out@),
        decreases old(self).depth, 8int,
    {
        proof {
            reveal(rows_written);
            reveal(updated);
        }
        match self.journal.table(Action::FindTable(table.to_owned()))? {
            Some(def) => {
                let schema = QuerySchema::single(table, clone_table_def(&def));
                assert(schema@ =~= one_table(table@, def@));
                assert(row_width(schema@.tables) == def@.columns.len());
                let at = hold(resolve_sets(&def, false, sets, &schema))?;
                self.change_table(table, &def, &schema, TriggerEvent::Update, Some((&at, sets)), cond, returning, params)
            },
            None => {
                let text = self.view_text(table, returning.is_some())?;
                let n: usize = self.run_instead_of_update(table, text.as_str(), sets, cond, params)?;
                Ok((n, None))
            },
        }
    }

    #[verifier::spinoff_prover]
    #[verifier::rlimit(40)]
    fn run_delete(&mut self, table: &str, cond: &Option<Expr>, returning: &Option<Vec<SelectItem>>, params: &Vec<Value>) -> (r: Result<(usize, Option<SelectOut>), Stop>)
        requires
            old(self).wf(),
        ensures
            went(*old(self), *final(self), (match r {
                        Ok((n, o)) => Ok((n as int, opt_out(o))),
                        Err(e) => Err(e),
                }), rows_written(old(self).cx(), old(self).run(), (StmtV::Delete { table: table@, where_clause: opt_v(*cond), returning: opt_items(*returning) }), row_view(params@), old(self).k())),
            r matches Ok((_, Some(out))) ==> fits(out@),
        decreases old(self).depth, 8int,
    {
        proof {
            reveal(rows_written);
        }
        match self.journal.table(Action::FindTable(table.to_owned()))? {
            Some(def) => {
                let schema = QuerySchema::single(table, clone_table_def(&def));
                assert(schema@ =~= one_table(table@, def@));
                assert(row_width(schema@.tables) == def@.columns.len());
                self.change_table(table, &def, &schema, TriggerEvent::Delete, None, cond, returning, params)
            },
            None => {
                let text = self.view_text(table, returning.is_some())?;
                let n: usize = self.run_instead_of_delete(table, text.as_str(), cond, params)?;
                Ok((n, None))
            },
        }
    }

    /// INSERT, UPDATE and DELETE.
    #[verifier::spinoff_prover]
    #[verifier::rlimit(40)]
    fn write(&mut self, stmt: &Stmt, params: &Vec<Value>) -> (r: Result<(usize, Option<SelectOut>), Stop>)
        requires
            old(self).wf(),
        ensures
            went(*old(self), *final(self), (match r {
                        Ok((n, o)) => Ok((n as int, opt_out(o))),
                        Err(e) => Err(e),
                }), rows_written(old(self).cx(), old(self).run(), stmt@, row_view(params@), old(self).k())),
            r matches Ok((_, Some(out))) ==> fits(out@),
        decreases old(self).depth, 9int,
    {
        proof {
            reveal(rows_written);
        }
        match stmt {
            Stmt::Insert { table, columns, source, on_conflict, returning } => self.run_insert(table.as_str(), columns, source, on_conflict, returning, params),
            Stmt::Update { table, sets, where_clause, returning } => self.run_update(table.as_str(), sets, where_clause, returning, params),
            Stmt::Delete { table, where_clause, returning } => self.run_delete(table.as_str(), where_clause, returning, params),
            _ => fail(sql_lit("solo INSERT/UPDATE/DELETE … RETURNING devuelven filas")),
        }
    }

    fn drop_named(&mut self, a: Action, if_exists: bool, what: &str, name: &str) -> (r: Result<usize, Stop>)
        requires
            old(self).wf(),
        ensures
            went(*old(self), *final(self), (match r {
                        Ok(n) => Ok(n as int),
                        Err(e) => Err(e),
                }), dropped(old(self).cx(), a@, if_exists, what@, name@, old(self).k())),
    {
        let there: bool = self.journal.flag(a)?;
        if !there && !if_exists {
            return fail(sql_err(cat(what, name)));
        }
        Ok(0)
    }

    fn plain(&mut self, a: Action) -> (r: Result<usize, Stop>)
        requires
            old(self).wf(),
        ensures
            went(*old(self), *final(self), (match r {
                        Ok(n) => Ok(n as int),
                        Err(e) => Err(e),
                }), no_rows(asked_done(old(self).cx().j, a@, old(self).k()))),
    {
        self.journal.done(a)?;
        Ok(0)
    }

    fn target(&mut self, table: &str) -> (r: Result<TableDef, Stop>)
        requires
            old(self).wf(),
        ensures
            went(*old(self), *final(self), (match r {
                        Ok(d) => Ok(d@),
                        Err(e) => Err(e),
                }), indexed_table(old(self).cx(), table@, old(self).k())),
    {
        match self.journal.table(Action::FindTable(table.to_owned()))? {
            Some(def) => Ok(def),
            None => fail(sql_err(cat("tabla desconocida: ", table))),
        }
    }

    fn skip_index(&mut self, a: Action, if_not_exists: bool) -> (r: Result<bool, Stop>)
        requires
            old(self).wf(),
        ensures
            went(*old(self), *final(self), r, skipped(old(self).cx(), a@, if_not_exists, old(self).k())),
    {
        if if_not_exists {
            self.journal.flag(a)
        } else {
            Ok(false)
        }
    }

    #[verifier::spinoff_prover]
    fn create_index(&mut self, unique: bool, name: &String, table: &String, columns: &Vec<String>) -> (r: Result<usize, Stop>)
        requires
            old(self).wf(),
        ensures
            went(*old(self), *final(self), (match r {
                        Ok(n) => Ok(n as int),
                        Err(e) => Err(e),
                }), index_made(old(self).cx(), unique, name@, table@, strings_v(columns@), old(self).k())),
    {
        proof {
            reveal(index_made);
        }
        let def = self.target(table.as_str())?;
        let at = hold(column_places(&def, columns))?;
        self.plain(Action::CreateIndex { table: table.clone(), name: name.clone(), columns: at, unique })
    }

    #[verifier::spinoff_prover]
    fn create_fts_index(&mut self, name: &String, table: &String, columns: &Vec<String>, tokenizer: &Option<String>) -> (r: Result<usize, Stop>)
        requires
            old(self).wf(),
        ensures
            went(*old(self), *final(self), (match r {
                        Ok(n) => Ok(n as int),
                        Err(e) => Err(e),
                }), fts_index_made(old(self).cx(), name@, table@, strings_v(columns@), (match *tokenizer {
                            Some(t) => Some(t@),
                            None => None,
                    }), old(self).k())),
    {
        proof {
            reveal(fts_index_made);
        }
        let def = self.target(table.as_str())?;
        let at = hold(column_places(&def, columns))?;
        let tok: String = match tokenizer {
            Some(t) => t.clone(),
            None => "unicode".to_owned(),
        };
        self.plain(Action::CreateFtsIndex { table: table.clone(), name: name.clone(), columns: at, tokenizer: tok })
    }

    #[verifier::spinoff_prover]
    fn create_vector_index(&mut self, name: &String, table: &String, column: &String, metric: &Option<String>, lists: Option<u32>, probes: Option<u32>) -> (r: Result<usize, Stop>)
        requires
            old(self).wf(),
        ensures
            went(*old(self), *final(self), (match r {
                        Ok(n) => Ok(n as int),
                        Err(e) => Err(e),
                }), vector_index_made(old(self).cx(), name@, table@, column@, (match *metric {
                            Some(t) => Some(t@),
                            None => None,
                    }), lists, probes, old(self).k())),
    {
        proof {
            reveal(vector_index_made);
        }
        let def = self.target(table.as_str())?;
        let mut one_name: Vec<String> = Vec::new();
        one_name.push(column.clone());
        assert(strings_v(one_name@) =~= seq![column@]);
        let at = hold(column_places(&def, &one_name))?;
        proof {
            reveal_with_fuel(places_of, 2);
        }
        let m = hold(vector_metric(metric))?;
        let n: u16 = match lists {
            Some(x) => clamp16(x),
            None => 100,
        };
        let p: u16 = match probes {
            Some(x) => clamp16(x),
            None => ((n as u32 + 9) / 10) as u16,
        };
        assert(ints(at@).len() == at@.len());
        assert(ints(at@)[0] == at@[0]);
        self.plain(Action::CreateVectorIndex { table: table.clone(), name: name.clone(), column: at[0], lists: n, metric: m, nprobe: p })
    }

    /// Whether to go on and make something.
    fn make_once(&mut self, found: bool, if_not_exists: bool, taken: &str) -> (r: Result<bool, Stop>)
        requires
            old(self).wf(),
        ensures
            went(*old(self), *final(self), r, made_once(old(self).cx(), Ok((found, old(self).k())), if_not_exists, taken@)),
            final(self).journal.at == old(self).journal.at,
    {
        if found && !if_not_exists {
            return fail(Error::Constraint(taken.to_owned()));
        }
        Ok(!found)
    }

    #[verifier::spinoff_prover]
    fn taken(&mut self, name: &str) -> (r: Result<bool, Stop>)
        requires
            old(self).wf(),
        ensures
            went(*old(self), *final(self), r, name_taken(old(self).cx(), name@, old(self).k())),
    {
        proof {
            reveal(name_taken);
        }
        let d = self.journal.table(Action::FindTable(name.to_owned()))?;
        if d.is_some() {
            return Ok(true);
        }
        let v = self.journal.text(Action::FindView(name.to_owned()))?;
        Ok(v.is_some())
    }

    #[verifier::spinoff_prover]
    #[verifier::rlimit(40)]
    fn create_from(&mut self, name: &str, query: &crate::sql::ast::SelectStmt, params: &Vec<Value>) -> (r: Result<usize, Stop>)
        requires
            old(self).wf(),
        ensures
            went(*old(self), *final(self), (match r {
                        Ok(n) => Ok(n as int),
                        Err(e) => Err(e),
                }), table_from(old(self).cx(), name@, query@, row_view(params@), old(self).k())),
    {
        proof {
            reveal(table_from);
        }
        let ghost cx = self.cx();
        let out = self.journal.output(Action::Query { query: clone_select(query), params: clone_row(params) })?;
        let made = hold(query_table(name, &out))?;
        let def = match self.journal.table(Action::CreateTable(made))? {
            Some(def) => def,
            None => {
                return fail(Error::Store("respuesta inesperada del almacén".to_owned()));
            },
        };
        let n: usize = out.rows.len();
        let ghost rv = rows_view(out.rows@);
        let ghost want = stored_rows(cx, def@, rv, 0, self.k());
        #[verifier::loop_isolation(false)]
        for i in 0..n
            invariant
                onward(*old(self), *self),
                want == stored_rows(cx, def@, rv, i as int, self.k()),
        {
            assert(rv[i as int] == row_view(out.rows@[i as int]@));
            let _id: i64 = self.journal.id(Action::InsertRow { table: clone_table_def(&def), row: clone_row(&out.rows[i]) })?;
        }
        assert(out@.rows.len() == n);
        Ok(n)
    }

    #[verifier::spinoff_prover]
    fn create_trigger(&mut self, name: &String, timing: TriggerTiming, event: TriggerEvent, for_each: TriggerForEach, table: &String, body: &String) -> (r: Result<usize, Stop>)
        requires
            old(self).wf(),
        ensures
            went(*old(self), *final(self), (match r {
                        Ok(n) => Ok(n as int),
                        Err(e) => Err(e),
                }), trigger_made(old(self).cx(), name@, timing, event, for_each, table@, body@, old(self).k())),
    {
        proof {
            reveal(trigger_made);
        }
        let stmts = hold(parse_many(body.as_str(), self.env.reals))?;
        if !all_change(&stmts) {
            return fail(sql_lit("el cuerpo de un trigger solo admite INSERT/UPDATE/DELETE"));
        }
        self.plain(Action::CreateTrigger(TriggerDef { name: name.clone(), timing, event, for_each, table: table.clone(), body: body.clone() }))
    }

    #[verifier::spinoff_prover]
    fn add_column(&mut self, table: &String, column: &ColumnAst, params: &Vec<Value>) -> (r: Result<usize, Stop>)
        requires
            old(self).wf(),
        ensures
            went(*old(self), *final(self), (match r {
                        Ok(n) => Ok(n as int),
                        Err(e) => Err(e),
                }), column_added(old(self).cx(), table@, column@, row_view(params@), old(self).k())),
    {
        proof {
            reveal(column_added);
        }
        if column.primary_key {
            return fail(sql_lit("ALTER TABLE ADD: no se puede añadir una PRIMARY KEY"));
        }
        let _def = self.target(table.as_str())?;
        assert(column@.default == opt_v(column.default));
        let default = hold(default_value(&self.env.branch(self.journal.at), &column.default, params))?;
        self.plain(Action::AddColumn { table: table.clone(), column: ColumnDef { name: column.name.clone(), col_type: column.col_type, not_null: column.not_null, default, dropped: false } })
    }

    /// What CREATE makes of tables, views and triggers.
    #[verifier::spinoff_prover]
    #[verifier::rlimit(40)]
    fn create(&mut self, stmt: &Stmt, params: &Vec<Value>) -> (r: Result<usize, Stop>)
        requires
            old(self).wf(),
            stmt@ is CreateTable || stmt@ is CreateTableAs || stmt@ is CreateView || stmt@ is CreateTrigger,
        ensures
            went(*old(self), *final(self), (match r {
                        Ok(n) => Ok(n as int),
                        Err(e) => Err(e),
                }), executed(old(self).cx(), old(self).run(), stmt@, row_view(params@), old(self).k())),
    {
        proof {
            reveal(executed);
        }
        match stmt {
            Stmt::CreateTable { if_not_exists, name, columns, foreign_keys, uniques, checks } => {
                let d = self.journal.table(Action::FindTable(name.clone()))?;
                let go: bool = self.make_once(d.is_some(), *if_not_exists, "la tabla ya existe")?;
                if !go {
                    return Ok(0);
                }
                let made = hold(table_spec(self.env, name.as_str(), columns, foreign_keys, uniques, checks))?;
                let _d = self.journal.table(Action::CreateTable(made))?;
                Ok(0)
            },
            Stmt::CreateTableAs { if_not_exists, name, query } => {
                let found: bool = self.taken(name.as_str())?;
                let go: bool = self.make_once(found, *if_not_exists, "la tabla ya existe")?;
                if !go {
                    return Ok(0);
                }
                self.create_from(name.as_str(), query, params)
            },
            Stmt::CreateView { if_not_exists, name, select_sql } => {
                let v = self.journal.text(Action::FindView(name.clone()))?;
                let go: bool = self.make_once(exists_flag(&v), *if_not_exists, "la vista ya existe")?;
                if !go {
                    return Ok(0);
                }
                self.plain(Action::CreateView { name: name.clone(), select_sql: select_sql.clone() })
            },
            Stmt::CreateTrigger { if_not_exists, name, timing, event, for_each, table, body_sql } => {
                let found: bool = self.journal.flag(Action::FindTrigger(name.clone()))?;
                let go: bool = self.make_once(found, *if_not_exists, "el trigger ya existe")?;
                if !go {
                    return Ok(0);
                }
                self.create_trigger(name, *timing, *event, *for_each, table, body_sql)
            },
            _ => Ok(0),
        }
    }

    /// CREATE of an index.
    #[verifier::spinoff_prover]
    #[verifier::rlimit(40)]
    fn create_any_index(&mut self, stmt: &Stmt, params: &Vec<Value>) -> (r: Result<usize, Stop>)
        requires
            old(self).wf(),
            stmt@ is CreateIndex || stmt@ is CreateFtsIndex || stmt@ is CreateVectorIndex,
        ensures
            went(*old(self), *final(self), (match r {
                        Ok(n) => Ok(n as int),
                        Err(e) => Err(e),
                }), executed(old(self).cx(), old(self).run(), stmt@, row_view(params@), old(self).k())),
    {
        proof {
            reveal(executed);
        }
        match stmt {
            Stmt::CreateIndex { if_not_exists, unique, name, table, columns } => {
                if self.skip_index(Action::FindIndex(name.clone()), *if_not_exists)? {
                    return Ok(0);
                }
                self.create_index(*unique, name, table, columns)
            },
            Stmt::CreateFtsIndex { if_not_exists, name, table, columns, tokenizer } => {
                if self.skip_index(Action::FindFtsIndex(name.clone()), *if_not_exists)? {
                    return Ok(0);
                }
                self.create_fts_index(name, table, columns, tokenizer)
            },
            Stmt::CreateVectorIndex { if_not_exists, name, table, column, metric, lists, probes } => {
                if self.skip_index(Action::FindVectorIndex(name.clone()), *if_not_exists)? {
                    return Ok(0);
                }
                self.create_vector_index(name, table, column, metric, *lists, *probes)
            },
            _ => Ok(0),
        }
    }

    /// DROP, and the rebuilding of an index.
    #[verifier::spinoff_prover]
    #[verifier::rlimit(40)]
    fn drop_any(&mut self, stmt: &Stmt, params: &Vec<Value>) -> (r: Result<usize, Stop>)
        requires
            old(self).wf(),
            stmt@ is DropTable || stmt@ is DropView || stmt@ is DropTrigger || stmt@ is DropIndex || stmt@ is DropFtsIndex || stmt@ is DropVectorIndex || stmt@ is RebuildVectorIndex,
        ensures
            went(*old(self), *final(self), (match r {
                        Ok(n) => Ok(n as int),
                        Err(e) => Err(e),
                }), executed(old(self).cx(), old(self).run(), stmt@, row_view(params@), old(self).k())),
    {
        proof {
            reveal(executed);
        }
        match stmt {
            Stmt::DropTable { if_exists, name } => self.drop_named(Action::DropTable(name.clone()), *if_exists, "tabla desconocida: ", name.as_str()),
            Stmt::DropView { if_exists, name } => self.drop_named(Action::DropView(name.clone()), *if_exists, "vista desconocida: ", name.as_str()),
            Stmt::DropTrigger { if_exists, name } => self.drop_named(Action::DropTrigger(name.clone()), *if_exists, "trigger desconocido: ", name.as_str()),
            Stmt::DropIndex { if_exists, name } => self.drop_named(Action::DropIndex(name.clone()), *if_exists, "índice desconocido: ", name.as_str()),
            Stmt::DropFtsIndex { if_exists, name } => self.drop_named(Action::DropFtsIndex(name.clone()), *if_exists, "índice FTS desconocido: ", name.as_str()),
            Stmt::DropVectorIndex { if_exists, name } => self.drop_named(Action::DropVectorIndex(name.clone()), *if_exists, "índice vectorial desconocido: ", name.as_str()),
            Stmt::RebuildVectorIndex { name } => self.drop_named(Action::RebuildVectorIndex(name.clone()), false, "índice vectorial desconocido: ", name.as_str()),
            _ => Ok(0),
        }
    }

    /// ALTER TABLE.
    #[verifier::spinoff_prover]
    #[verifier::rlimit(40)]
    fn alter(&mut self, stmt: &Stmt, params: &Vec<Value>) -> (r: Result<usize, Stop>)
        requires
            old(self).wf(),
            stmt@ is AlterTableAddColumn || stmt@ is AlterTableMoveColumn || stmt@ is AlterTableReorderColumns || stmt@ is AlterTableRenameColumn || stmt@ is AlterTableDropColumn,
        ensures
            went(*old(self), *final(self), (match r {
                        Ok(n) => Ok(n as int),
                        Err(e) => Err(e),
                }), executed(old(self).cx(), old(self).run(), stmt@, row_view(params@), old(self).k())),
    {
        proof {
            reveal(executed);
        }
        match stmt {
            Stmt::AlterTableAddColumn { table, column } => self.add_column(table, column, params),
            Stmt::AlterTableMoveColumn { table, column, pos } => self.plain(Action::MoveColumn { table: table.clone(), column: column.clone(), pos: clone_column_pos(pos) }),
            Stmt::AlterTableReorderColumns { table, order } => self.plain(Action::ReorderColumns { table: table.clone(), order: clone_strings(order) }),
            Stmt::AlterTableRenameColumn { table, old: from, new: to } => self.plain(Action::RenameColumn { table: table.clone(), from: from.clone(), to: to.clone() }),
            Stmt::AlterTableDropColumn { table, column } => self.plain(Action::DropColumn { table: table.clone(), column: column.clone() }),
            _ => Ok(0),
        }
    }

    #[verifier::spinoff_prover]
    #[verifier::rlimit(40)]
    fn execute(&mut self, stmt: &Stmt, params: &Vec<Value>) -> (r: Result<usize, Stop>)
        requires
            old(self).wf(),
        ensures
            went(*old(self), *final(self), (match r {
                        Ok(n) => Ok(n as int),
                        Err(e) => Err(e),
                }), executed(old(self).cx(), old(self).run(), stmt@, row_view(params@), old(self).k())),
        decreases old(self).depth, 10int,
    {
        proof {
            reveal(executed);
        }
        match stmt {
            Stmt::CreateTable { .. } | Stmt::CreateTableAs { .. } | Stmt::CreateView { .. } | Stmt::CreateTrigger { .. } => self.create(stmt, params),
            Stmt::CreateIndex { .. } | Stmt::CreateFtsIndex { .. } | Stmt::CreateVectorIndex { .. } => self.create_any_index(stmt, params),
            Stmt::DropTable { .. } | Stmt::DropView { .. } | Stmt::DropTrigger { .. } | Stmt::DropIndex { .. } | Stmt::DropFtsIndex { .. } | Stmt::DropVectorIndex { .. } | Stmt::RebuildVectorIndex { .. } => self.drop_any(stmt, params),
            Stmt::AlterTableAddColumn { .. } | Stmt::AlterTableMoveColumn { .. } | Stmt::AlterTableReorderColumns { .. } | Stmt::AlterTableRenameColumn { .. } | Stmt::AlterTableDropColumn { .. } => self.alter(stmt, params),
            Stmt::Insert { .. } | Stmt::Update { .. } | Stmt::Delete { .. } => {
                let (n, _out) = self.write(stmt, params)?;
                Ok(n)
            },
            Stmt::Select(_) => {
                fail(sql_lit("SELECT devuelve filas: usa query, no execute"))
            },
            Stmt::Begin | Stmt::Commit | Stmt::Rollback | Stmt::Savepoint(_) | Stmt::ReleaseSavepoint(_) | Stmt::RollbackTo(_) => {
                fail(sql_lit("las sentencias de transacción/savepoint las gestiona la conexión"))
            },
        }
    }

}

fn clamp16(n: u32) -> (r: u16)
    ensures
        r == clamped(n as int),
{
    if n < 1 {
        1
    } else if n > 0xffff {
        0xffff
    } else {
        n as u16
    }
}

fn vector_metric(name: &Option<String>) -> (r: Result<VectorMetric, Error>)
    ensures
        (match metric_of((match *name {
                        Some(m) => Some(m@),
                        None => None,
            })) {
                Ok(m) => r == Ok::<VectorMetric, Error>(m),
                Err(e) => r is Err && r->Err_0@ == e,
        }),
{
    match name {
        None => Ok(VectorMetric::Cosine),
        Some(m) => {
            if str_eq(m.as_str(), "cosine") {
                Ok(VectorMetric::Cosine)
            } else if str_eq(m.as_str(), "l2") {
                Ok(VectorMetric::L2)
            } else {
                Err(sql_err(cat("métrica vectorial desconocida: ", m.as_str())))
            }
        },
    }
}

/// `r` is the outcome `want` of a whole statement.
pub open spec fn ended<T>(r: Result<T, Stop>, want: Result<(T, int), StopV>) -> bool {
    match want {
        Ok((v, _k)) => r == Ok::<T, Stop>(v),
        Err(StopV::Fail(e, _k)) => r matches Err(Stop::Fail(x)) && x@ == e,
        Err(StopV::Ask(x)) => r matches Err(Stop::Ask(y)) && y@ == x,
    }
}

/// Runs a statement that writes with the answers that its store has given so far: the
/// number of rows that it wrote, the action that it needs next, or its error.
pub fn run_execute(env: &Env, replies: &Vec<Reply>, stmt: &Stmt, params: &Vec<Value>) -> (r: Result<usize, Stop>)
    ensures
        ended((match r {
                    Ok(n) => Ok(n as int),
                    Err(e) => Err(e),
            }), run_outcome(env@, replies_v(replies@), stmt@, row_view(params@))),
{
    let mut w = Writer { env, journal: Journal { replies, at: 0 }, depth: replies.len() };
    assert(replies_v(replies@).len() == replies@.len());
    w.execute(stmt, params)
}

/// Runs a statement with RETURNING and gives its rows.
pub fn run_returning(env: &Env, replies: &Vec<Reply>, stmt: &Stmt, params: &Vec<Value>) -> (r: Result<SelectOut, Stop>)
    ensures
        ended((match r {
                    Ok(out) => Ok(out@),
                    Err(e) => Err(e),
            }), returning_outcome(env@, replies_v(replies@), stmt@, row_view(params@))),
        r is Ok ==> fits(r->Ok_0@),
{
    let mut w = Writer { env, journal: Journal { replies, at: 0 }, depth: replies.len() };
    assert(replies_v(replies@).len() == replies@.len());
    let (_n, out) = w.write(stmt, params)?;
    match out {
        Some(rows) => Ok(rows),
        None => fail(sql_lit("la sentencia no lleva RETURNING")),
    }
}

} // verus!
