//! What the statements that declare things are for: what is asked of the store, what IF EXISTS
//! and IF NOT EXISTS change, and how triggers of a statement stand around what it writes.
#[allow(unused_imports)]
use vstd::prelude::*;

#[allow(unused_imports)]
use crate::catalog::{
    ColumnDefV, ColumnPosV, TableDefV, TableSpecV, TriggerDefV, TriggerEvent, TriggerForEach, TriggerTiming, VectorMetric,
};
#[allow(unused_imports)]
use crate::error::ErrorV;
#[allow(unused_imports)]
use crate::exec::change::{candidates, check_exprs, valid_condition};
#[allow(unused_imports)]
use crate::exec::eval::value_of;
#[allow(unused_imports)]
use crate::exec::execute::{
    changed, changed_rows, changes, column_added, executed, fired, fts_index_made, index_made, inserted, inserted_rows,
    instead_triggers, nested, opt_returned, row_after, row_level, rows_written, seen, source_rows, statement_level, stored_rows,
    table_from, trigger_made, triggers_of, vector_index_made, view_changes, view_inserts, Cx, InsertV, Nested,
};
#[allow(unused_imports)]
use crate::exec::joins::one_table;
#[allow(unused_imports)]
use crate::exec::journal::{all_wide, there, ActionV, ReplyV, StopV};
#[allow(unused_imports)]
use crate::exec::ops::{branch, EnvV};
#[allow(unused_imports)]
use crate::exec::output::{fits, SelectOutV};
#[allow(unused_imports)]
use crate::exec::plan::{place_named, AccessV};
#[allow(unused_imports)]
use crate::exec::schema::SchemaV;
#[allow(unused_imports)]
use crate::exec::schema::def_ok;
#[allow(unused_imports)]
use crate::exec::write::{
    all_with_rows, default_of, defaults, named_values, names_row, place_of_column, places_of, proposed, repeated, result_spec,
    row_column, sets_with_rows, stmt_with_rows, view_proposed, with_rows,
};
#[allow(unused_imports)]
use crate::record::ValueV;
#[allow(unused_imports)]
use crate::sql::ast::{BinOp, ColumnAstV, ExprV, InsertSourceV, SelectItemV, SelectStmtV, StmtV};

verus! {

/// The store answered `r` as its answer `k`.
pub open spec fn said(cx: Cx, k: int, r: ReplyV) -> bool {
    0 <= k < cx.j.len() && cx.j[k] == r
}

/// The store has not answered yet.
pub open spec fn waits(cx: Cx, k: int) -> bool {
    k == cx.j.len()
}

pub open spec fn asks(a: ActionV) -> Result<(int, int), StopV> {
    Err(StopV::Ask(a))
}

pub open spec fn done(k: int) -> Result<(int, int), StopV> {
    Ok((0int, k))
}

/// Refused because of a constraint, after `k` answers.
pub open spec fn refused(r: Result<(int, int), StopV>, k: int) -> bool {
    r is Err && r->Err_0 is Fail && r->Err_0->Fail_0 is Constraint && r->Err_0->Fail_1 == k
}

pub open spec fn failed(r: Result<(int, int), StopV>, k: int) -> bool {
    r is Err && r->Err_0 is Fail && r->Err_0->Fail_1 == k
}

// --- what is there already ---

/// CREATE TABLE looks for a table of that name. Where there is one nothing is made: with IF NOT
/// EXISTS the statement is done, without it is refused. Where there is none a table of that name
/// is asked for.
pub proof fn tables_are_made_once(cx: Cx, run: Nested, stmt: StmtV, params: Seq<ValueV>, k: int, def: TableDefV, made: TableDefV)
    requires
        stmt is CreateTable,
    ensures
        waits(cx, k) ==> executed(cx, run, stmt, params, k) == asks(ActionV::FindTable(stmt->CreateTable_name)),
        def_ok(def) && said(cx, k, ReplyV::Table(Some(def))) && stmt->CreateTable_if_not_exists ==> executed(cx, run, stmt, params, k) == done(k + 1),
        def_ok(def) && said(cx, k, ReplyV::Table(Some(def))) && !stmt->CreateTable_if_not_exists ==> refused(executed(cx, run, stmt, params, k), k + 1),
        said(cx, k, ReplyV::Table(None)) && waits(cx, k + 1) ==> {
            let r = executed(cx, run, stmt, params, k);
            r is Err && (r->Err_0 is Ask ==> r->Err_0->Ask_0 is CreateTable && r->Err_0->Ask_0->CreateTable_0.name == stmt->CreateTable_name)
        },
        said(cx, k, ReplyV::Table(None)) && def_ok(made) && said(cx, k + 1, ReplyV::Table(Some(made))) ==> executed(cx, run, stmt, params, k) == done(k + 2) || failed(executed(cx, run, stmt, params, k), k + 1),
{
    reveal(executed);
}

/// CREATE VIEW asks for a view of that name and text, unless there is one: then it is done with IF
/// NOT EXISTS and refused without.
pub proof fn views_are_made_once(cx: Cx, run: Nested, if_not_exists: bool, name: Seq<char>, select_sql: Seq<char>, params: Seq<ValueV>, k: int, text: Seq<char>)
    ensures
        ({
            let r = executed(cx, run, StmtV::CreateView { if_not_exists, name, select_sql }, params, k);
            &&& waits(cx, k) ==> r == asks(ActionV::FindView(name))
            &&& said(cx, k, ReplyV::Text(Some(text))) && if_not_exists ==> r == done(k + 1)
            &&& said(cx, k, ReplyV::Text(Some(text))) && !if_not_exists ==> refused(r, k + 1)
            &&& said(cx, k, ReplyV::Text(None)) && waits(cx, k + 1) ==> r == asks(ActionV::CreateView { name, select_sql })
            &&& said(cx, k, ReplyV::Text(None)) && said(cx, k + 1, ReplyV::Done) ==> r == done(k + 2)
        }),
{
    reveal(executed);
}

/// CREATE TRIGGER asks for a trigger with just what the statement says, unless there is one of that
/// name: then it is done with IF NOT EXISTS and refused without.
pub proof fn triggers_are_made_once(cx: Cx, run: Nested, if_not_exists: bool, name: Seq<char>, timing: TriggerTiming, event: TriggerEvent, for_each: TriggerForEach, table: Seq<char>, body_sql: Seq<char>, params: Seq<ValueV>, k: int)
    ensures
        ({
            let r = executed(cx, run, StmtV::CreateTrigger { if_not_exists, name, timing, event, for_each, table, body_sql }, params, k);
            &&& waits(cx, k) ==> r == asks(ActionV::FindTrigger(name))
            &&& said(cx, k, ReplyV::Flag(true)) && if_not_exists ==> r == done(k + 1)
            &&& said(cx, k, ReplyV::Flag(true)) && !if_not_exists ==> refused(r, k + 1)
            &&& said(cx, k, ReplyV::Flag(false)) && waits(cx, k + 1) ==> r == asks(ActionV::CreateTrigger(TriggerDefV { name, timing, event, for_each, table, body: body_sql })) || failed(r, k + 1)
            &&& said(cx, k, ReplyV::Flag(false)) && said(cx, k + 1, ReplyV::Done) ==> r == done(k + 2) || failed(r, k + 1)
        }),
{
    reveal(executed);
    reveal(trigger_made);
}

/// DROP asks the store to drop what is named. It is done where that was there, or where IF EXISTS is
/// written; else it fails.
pub proof fn drops_need_what_they_drop(cx: Cx, run: Nested, stmt: StmtV, params: Seq<ValueV>, k: int, if_exists: bool, name: Seq<char>, a: ActionV)
    requires
        ({
            ||| stmt == StmtV::DropTable { if_exists, name } && a == ActionV::DropTable(name)
            ||| stmt == StmtV::DropView { if_exists, name } && a == ActionV::DropView(name)
            ||| stmt == StmtV::DropTrigger { if_exists, name } && a == ActionV::DropTrigger(name)
            ||| stmt == StmtV::DropIndex { if_exists, name } && a == ActionV::DropIndex(name)
            ||| stmt == StmtV::DropFtsIndex { if_exists, name } && a == ActionV::DropFtsIndex(name)
            ||| stmt == StmtV::DropVectorIndex { if_exists, name } && a == ActionV::DropVectorIndex(name)
            ||| stmt == StmtV::RebuildVectorIndex { name } && !if_exists && a == ActionV::RebuildVectorIndex(name)
        }),
    ensures
        waits(cx, k) ==> executed(cx, run, stmt, params, k) == asks(a),
        said(cx, k, ReplyV::Flag(true)) ==> executed(cx, run, stmt, params, k) == done(k + 1),
        said(cx, k, ReplyV::Flag(false)) && if_exists ==> executed(cx, run, stmt, params, k) == done(k + 1),
        said(cx, k, ReplyV::Flag(false)) && !if_exists ==> failed(executed(cx, run, stmt, params, k), k + 1),
{
    reveal(executed);
}

// --- indexes ---

/// CREATE INDEX with IF NOT EXISTS is done where the index is there. Otherwise it looks for the
/// table, and asks for an index on the places of the named columns there, unique exactly where
/// the statement says so.
pub proof fn indexes_are_made_on_their_columns(cx: Cx, run: Nested, if_not_exists: bool, unique: bool, name: Seq<char>, table: Seq<char>, columns: Seq<Seq<char>>, params: Seq<ValueV>, k: int, def: TableDefV, at: Seq<int>)
    requires
        def_ok(def),
        places_of(def, columns, 0) == Ok::<Seq<int>, ErrorV>(at),
    ensures
        ({
            let r = executed(cx, run, StmtV::CreateIndex { if_not_exists, unique, name, table, columns }, params, k);
            let k1 = if if_not_exists {
                k + 1
            } else {
                k
            };
            &&& if_not_exists && waits(cx, k) ==> r == asks(ActionV::FindIndex(name))
            &&& if_not_exists && said(cx, k, ReplyV::Flag(true)) ==> r == done(k + 1)
            &&& (if_not_exists ==> said(cx, k, ReplyV::Flag(false))) ==> {
                &&& waits(cx, k1) ==> r == asks(ActionV::FindTable(table))
                &&& said(cx, k1, ReplyV::Table(None)) ==> failed(r, k1 + 1)
                &&& said(cx, k1, ReplyV::Table(Some(def))) && waits(cx, k1 + 1) ==> r == asks(ActionV::CreateIndex { table, name, columns: at, unique })
                &&& said(cx, k1, ReplyV::Table(Some(def))) && said(cx, k1 + 1, ReplyV::Done) ==> r == done(k1 + 2)
            }
        }),
{
    reveal(executed);
    reveal(index_made);
}

/// A full-text index is made with the tokenizer that is named, or with `unicode`.
pub proof fn full_text_indexes_name_their_tokenizer(cx: Cx, name: Seq<char>, table: Seq<char>, columns: Seq<Seq<char>>, tokenizer: Option<Seq<char>>, k: int, def: TableDefV, at: Seq<int>)
    requires
        def_ok(def),
        places_of(def, columns, 0) == Ok::<Seq<int>, ErrorV>(at),
        said(cx, k, ReplyV::Table(Some(def))),
        waits(cx, k + 1),
    ensures
        tokenizer is Some ==> fts_index_made(cx, name, table, columns, tokenizer, k) == asks(ActionV::CreateFtsIndex { table, name, columns: at, tokenizer: tokenizer->0 }),
        tokenizer is None ==> fts_index_made(cx, name, table, columns, tokenizer, k) == asks(ActionV::CreateFtsIndex { table, name, columns: at, tokenizer: "unicode"@ }),
{
    reveal(fts_index_made);
}

/// A vector index measures by the cosine unless another metric is named, has as many lists as it
/// is told, from 1 to 65535, else 100, and a search reads as many of them as it is told, else a
/// tenth, rounded up.
pub proof fn vector_indexes_have_their_settings(cx: Cx, name: Seq<char>, table: Seq<char>, column: Seq<char>, metric: Option<Seq<char>>, lists: Option<u32>, probes: Option<u32>, k: int, def: TableDefV, at: Seq<int>)
    requires
        def_ok(def),
        places_of(def, seq![column], 0) == Ok::<Seq<int>, ErrorV>(at),
        said(cx, k, ReplyV::Table(Some(def))),
        waits(cx, k + 1),
    ensures
        ({
            let r = vector_index_made(cx, name, table, column, metric, lists, probes, k);
            r is Err && r->Err_0 is Ask ==> {
                let a = r->Err_0->Ask_0;
                &&& a is CreateVectorIndex
                &&& a->CreateVectorIndex_table == table
                &&& a->CreateVectorIndex_name == name
                &&& a->CreateVectorIndex_column == at[0]
                &&& metric is None ==> a->metric == VectorMetric::Cosine
                &&& metric == Some("cosine"@) ==> a->metric == VectorMetric::Cosine
                &&& metric == Some("l2"@) ==> a->metric == VectorMetric::L2
                &&& lists is None ==> a->lists == 100
                &&& lists is Some && 1 <= lists->0 <= 65535 ==> a->lists == lists->0
                &&& lists is Some && lists->0 == 0 ==> a->lists == 1
                &&& lists is Some && lists->0 > 65535 ==> a->lists == 65535
                &&& probes is Some && 1 <= probes->0 <= 65535 ==> a->nprobe == probes->0
                &&& probes is None ==> 10 * a->nprobe >= a->lists && 10 * a->nprobe < a->lists + 10
            }
        }),
        metric is None || metric == Some("cosine"@) || metric == Some("l2"@) ==> vector_index_made(cx, name, table, column, metric, lists, probes, k) is Err && vector_index_made(cx, name, table, column, metric, lists, probes, k)->Err_0 is Ask,
{
    reveal(vector_index_made);
    reveal_strlit("cosine");
    reveal_strlit("l2");
    assert("cosine"@.len() == 6 && "l2"@.len() == 2);
    assert("cosine"@ != "l2"@);
}

// --- ALTER TABLE ---

/// The changes of a table are asked for as they are written.
pub proof fn alterations_are_asked_for(cx: Cx, run: Nested, stmt: StmtV, params: Seq<ValueV>, k: int, table: Seq<char>, column: Seq<char>, pos: ColumnPosV, order: Seq<Seq<char>>, from: Seq<char>, to: Seq<char>, a: ActionV)
    requires
        ({
            ||| stmt == StmtV::AlterTableMoveColumn { table, column, pos } && a == ActionV::MoveColumn { table, column, pos }
            ||| stmt == StmtV::AlterTableReorderColumns { table, order } && a == ActionV::ReorderColumns { table, order }
            ||| stmt == StmtV::AlterTableRenameColumn { table, old: from, new: to } && a == ActionV::RenameColumn { table, from, to }
            ||| stmt == StmtV::AlterTableDropColumn { table, column } && a == ActionV::DropColumn { table, column }
        }),
    ensures
        waits(cx, k) ==> executed(cx, run, stmt, params, k) == asks(a),
        said(cx, k, ReplyV::Done) ==> executed(cx, run, stmt, params, k) == done(k + 1),
{
    reveal(executed);
}

/// A column is added as it is declared, with the value of its default. One that is a primary key
/// is not.
pub proof fn columns_are_added_as_declared(cx: Cx, run: Nested, table: Seq<char>, column: ColumnAstV, params: Seq<ValueV>, k: int, def: TableDefV, d: Option<ValueV>)
    requires
        def_ok(def),
        said(cx, k, ReplyV::Table(Some(def))),
        waits(cx, k + 1),
        default_of(branch(cx.env, k + 1), column.default, params) == Ok::<Option<ValueV>, ErrorV>(d),
    ensures
        ({
            let r = executed(cx, run, StmtV::AlterTableAddColumn { table, column }, params, k);
            &&& column.primary_key ==> failed(r, k)
            &&& !column.primary_key ==> r == asks(ActionV::AddColumn { table, column: ColumnDefV { name: column.name, col_type: column.col_type, not_null: column.not_null, default: d, dropped: false } })
        }),
{
    reveal(executed);
    reveal(column_added);
}

// --- CREATE TABLE AS ---

proof fn lemma_stored(cx: Cx, def: TableDefV, rows: Seq<Seq<ValueV>>, ids: Seq<i64>, i: int, k: int)
    requires
        0 <= i <= ids.len() <= rows.len(),
        0 <= k,
        cx.j.len() == k + (ids.len() - i),
        forall|m: int| i <= m < ids.len() ==> cx.j[k + m - i] == ReplyV::Id(#[trigger] ids[m]),
    ensures
        stored_rows(cx, def, rows, i, k) == (if ids.len() < rows.len() {
            Err(StopV::Ask(ActionV::InsertRow { table: def, row: rows[ids.len() as int] }))
        } else {
            Ok(((), k + (rows.len() - i)))
        }),
    decreases rows.len() - i,
{
    if i < ids.len() {
        assert(cx.j[k + i - i] == ReplyV::Id(ids[i]));
        assert forall|m: int| i + 1 <= m < ids.len() implies cx.j[(k + 1) + m - (i + 1)] == ReplyV::Id(#[trigger] ids[m]) by {
            assert(cx.j[k + m - i] == ReplyV::Id(ids[m]));
        }
        lemma_stored(cx, def, rows, ids, i + 1, k + 1);
    }
}

/// CREATE TABLE AS runs its query, makes a table for the result, and asks for every row of the
/// result to be inserted, one after the other; it counts them.
pub proof fn tables_are_filled_from_queries(cx: Cx, name: Seq<char>, query: SelectStmtV, params: Seq<ValueV>, k: int, out: SelectOutV, spec: TableSpecV, def: TableDefV, ids: Seq<i64>)
    requires
        0 <= k,
        fits(out),
        def_ok(def),
        said(cx, k, ReplyV::Output(out)),
        result_spec(name, out) == Ok::<TableSpecV, ErrorV>(spec),
        ids.len() <= out.rows.len(),
        said(cx, k + 1, ReplyV::Table(Some(def))),
        cx.j.len() == k + 2 + ids.len(),
        forall|m: int| 0 <= m < ids.len() ==> cx.j[k + 2 + m] == ReplyV::Id(#[trigger] ids[m]),
    ensures
        ids.len() < out.rows.len() ==> table_from(cx, name, query, params, k) == asks(ActionV::InsertRow { table: def, row: out.rows[ids.len() as int] }),
        ids.len() == out.rows.len() ==> table_from(cx, name, query, params, k) == Ok::<(int, int), StopV>((out.rows.len() as int, k + 2 + out.rows.len())),
{
    reveal(table_from);
    assert forall|m: int| 0 <= m < ids.len() implies cx.j[(k + 2) + m - 0] == ReplyV::Id(#[trigger] ids[m]) by {
        assert(cx.j[k + 2 + m] == ReplyV::Id(ids[m]));
    }
    lemma_stored(cx, def, out.rows, ids, 0, k + 2);
}

/// CREATE TABLE AS first asks for the result of its query, then for a table.
pub proof fn tables_from_queries_start_with_the_query(cx: Cx, name: Seq<char>, query: SelectStmtV, params: Seq<ValueV>, k: int, out: SelectOutV, spec: TableSpecV)
    requires
        result_spec(name, out) == Ok::<TableSpecV, ErrorV>(spec),
    ensures
        waits(cx, k) ==> table_from(cx, name, query, params, k) == asks(ActionV::Query { query, params }),
        fits(out) && said(cx, k, ReplyV::Output(out)) && waits(cx, k + 1) ==> table_from(cx, name, query, params, k) == asks(ActionV::CreateTable(spec)),
{
    reveal(table_from);
}

// --- triggers around what is written ---

/// The triggers before and those after an event of a table are asked for in that order.
pub proof fn triggers_are_those_of_the_event(cx: Cx, table: Seq<char>, event: TriggerEvent, k: int, before: Seq<TriggerDefV>, after: Seq<TriggerDefV>)
    ensures
        waits(cx, k) ==> triggers_of(cx, table, event, k) == Err::<((Seq<TriggerDefV>, Seq<TriggerDefV>), int), StopV>(StopV::Ask(ActionV::Triggers { table, event, timing: TriggerTiming::Before })),
        said(cx, k, ReplyV::Triggers(before)) && waits(cx, k + 1) ==> triggers_of(cx, table, event, k) == Err::<((Seq<TriggerDefV>, Seq<TriggerDefV>), int), StopV>(StopV::Ask(ActionV::Triggers { table, event, timing: TriggerTiming::After })),
        said(cx, k, ReplyV::Triggers(before)) && said(cx, k + 1, ReplyV::Triggers(after)) ==> triggers_of(cx, table, event, k) == Ok::<((Seq<TriggerDefV>, Seq<TriggerDefV>), int), StopV>(((before, after), k + 2)),
{
    reveal(triggers_of);
}

/// An UPDATE or a DELETE runs the BEFORE triggers of the statement, then changes its rows, each with
/// its own triggers, then runs the AFTER triggers of the statement; it counts the rows, and
/// RETURNING sees them. Where a trigger before the statement fails nothing is written.
pub proof fn statement_triggers_stand_around_changes(cx: Cx, run: Nested, table: Seq<char>, def: TableDefV, event: TriggerEvent, change: Option<(Seq<int>, Seq<(Seq<char>, ExprV)>)>, cond: Option<ExprV>, returning: Option<Seq<SelectItemV>>, params: Seq<ValueV>, k: int, before: Seq<TriggerDefV>, after: Seq<TriggerDefV>, access: AccessV, found: Seq<(i64, Option<Seq<ValueV>>)>, list: Seq<(i64, Seq<ValueV>, Option<Seq<ValueV>>)>, k3: int, k4: int, k5: int, out: Option<SelectOutV>, e: StopV)
    requires
        ({
            let s = one_table(table, def);
            &&& valid_condition(cond, s) is Ok
            &&& said(cx, k, ReplyV::Triggers(before))
            &&& said(cx, k + 1, ReplyV::Triggers(after))
            &&& candidates(branch(branch(cx.env, k + 2), 3), table, def, cond, params) == Ok::<AccessV, ErrorV>(access)
            &&& all_wide(found, def.columns.len() as int)
            &&& said(cx, k + 2, ReplyV::Rows(found))
            &&& changes(branch(cx.env, k + 3), s, cond, change, there(found, 0), params, 0) == Ok::<Seq<(i64, Seq<ValueV>, Option<Seq<ValueV>>)>, ErrorV>(list)
        }),
        change is None,
    ensures
        ({
            let s = one_table(table, def);
            let r = changed(cx, run, table, def, event, change, cond, returning, params, k);
            let first = fired(cx, run, def, statement_level(before), None, None, k + 3);
            let rows = changed_rows(cx, run, s, def, Seq::empty(), row_level(before), row_level(after), list, params, 0, k3);
            let last = fired(cx, run, def, statement_level(after), None, None, k4);
            &&& first == Err::<((), int), StopV>(e) ==> r == Err::<((int, Option<SelectOutV>), int), StopV>(e)
            &&& first == Ok::<((), int), StopV>(((), k3)) && rows == Err::<((), int), StopV>(e) ==> r == Err::<((int, Option<SelectOutV>), int), StopV>(e)
            &&& first == Ok::<((), int), StopV>(((), k3)) && rows == Ok::<((), int), StopV>(((), k4)) && last == Err::<((), int), StopV>(e) ==> r == Err::<((int, Option<SelectOutV>), int), StopV>(e)
            &&& first == Ok::<((), int), StopV>(((), k3)) && rows == Ok::<((), int), StopV>(((), k4)) && last == Ok::<((), int), StopV>(((), k5)) && opt_returned(branch(branch(cx.env, k5), 5), table, def, returning, seen(list), params) == Ok::<Option<SelectOutV>, ErrorV>(out) ==> r == Ok::<((int, Option<SelectOutV>), int), StopV>(((list.len() as int, out), k5))
        }),
{
    reveal(changed);
    reveal(triggers_of);
}

/// An INSERT runs the BEFORE triggers of the statement, then inserts its rows, each with its own
/// triggers, then runs the AFTER triggers of the statement; it counts the rows, and RETURNING
/// sees them.
pub proof fn statement_triggers_stand_around_inserts(cx: Cx, run: Nested, table: Seq<char>, def: TableDefV, columns: Option<Seq<Seq<char>>>, rows: Seq<Seq<ExprV>>, returning: Option<Seq<SelectItemV>>, params: Seq<ValueV>, k: int, before: Seq<TriggerDefV>, after: Seq<TriggerDefV>, checks: Seq<ExprV>, written: Seq<Seq<ValueV>>, k3: int, k4: int, k5: int, out: Option<SelectOutV>, e: StopV)
    requires
        said(cx, k, ReplyV::Triggers(before)),
        said(cx, k + 1, ReplyV::Triggers(after)),
        check_exprs(def.checks, cx.env.reals, 0) == Ok::<Seq<ExprV>, ErrorV>(checks),
    ensures
        ({
            let r = inserted(cx, run, table, def, columns, rows, None, returning, params, k);
            let w = InsertV { table, def, columns, on_conflict: None, params, checks, before: row_level(before), after: row_level(after), update_before: Seq::empty(), update_after: Seq::empty() };
            let first = fired(cx, run, def, statement_level(before), None, None, k + 2);
            let each = inserted_rows(cx, run, w, rows, 0, k3);
            let last = fired(cx, run, def, statement_level(after), None, None, k4);
            &&& first == Err::<((), int), StopV>(e) ==> r == Err::<((int, Option<SelectOutV>), int), StopV>(e)
            &&& first == Ok::<((), int), StopV>(((), k3)) && each == Err::<(Seq<Seq<ValueV>>, int), StopV>(e) ==> r == Err::<((int, Option<SelectOutV>), int), StopV>(e)
            &&& first == Ok::<((), int), StopV>(((), k3)) && each == Ok::<(Seq<Seq<ValueV>>, int), StopV>((written, k4)) && last == Err::<((), int), StopV>(e) ==> r == Err::<((int, Option<SelectOutV>), int), StopV>(e)
            &&& first == Ok::<((), int), StopV>(((), k3)) && each == Ok::<(Seq<Seq<ValueV>>, int), StopV>((written, k4)) && last == Ok::<((), int), StopV>(((), k5)) && opt_returned(branch(branch(cx.env, k5), 5), table, def, returning, written, params) == Ok::<Option<SelectOutV>, ErrorV>(out) ==> r == Ok::<((int, Option<SelectOutV>), int), StopV>(((written.len() as int, out), k5))
        }),
{
    reveal(inserted);
    reveal(triggers_of);
    assert(row_level(Seq::empty()) =~= Seq::<TriggerDefV>::empty());
}

// --- what an INSERT takes ---

/// INSERT ... SELECT takes the rows of the result of its query, in their order, with their values.
pub proof fn queries_give_the_rows_to_insert(cx: Cx, query: SelectStmtV, params: Seq<ValueV>, k: int, out: SelectOutV, i: int, c: int, rows: Seq<Seq<ExprV>>)
    requires
        fits(out),
        0 <= i < out.rows.len(),
        0 <= c < out.rows[i].len(),
    ensures
        waits(cx, k) ==> source_rows(cx, InsertSourceV::Select(Box::new(query)), params, k) == Err::<(Seq<Seq<ExprV>>, int), StopV>(StopV::Ask(ActionV::Query { query, params })),
        said(cx, k, ReplyV::Output(out)) ==> {
            let r = source_rows(cx, InsertSourceV::Select(Box::new(query)), params, k);
            &&& r is Ok
            &&& r->Ok_0.1 == k + 1
            &&& r->Ok_0.0.len() == out.rows.len()
            &&& r->Ok_0.0[i].len() == out.rows[i].len()
            &&& r->Ok_0.0[i][c] == ExprV::Literal(out.rows[i][c])
        },
        source_rows(cx, InsertSourceV::Values(rows), params, k) == Ok::<(Seq<Seq<ExprV>>, int), StopV>((rows, k)),
{
}

// --- writes on views ---

/// A write on a view needs a trigger INSTEAD OF for its event.
pub proof fn views_need_instead_of_triggers(cx: Cx, view: Seq<char>, event: TriggerEvent, k: int, ts: Seq<TriggerDefV>)
    ensures
        waits(cx, k) ==> instead_triggers(cx, view, event, k) == Err::<(Seq<TriggerDefV>, int), StopV>(StopV::Ask(ActionV::Triggers { table: view, event, timing: TriggerTiming::InsteadOf })),
        said(cx, k, ReplyV::Triggers(ts)) && ts.len() > 0 ==> instead_triggers(cx, view, event, k) == Ok::<(Seq<TriggerDefV>, int), StopV>((ts, k + 1)),
        said(cx, k, ReplyV::Triggers(ts)) && ts.len() == 0 ==> instead_triggers(cx, view, event, k) is Err && instead_triggers(cx, view, event, k)->Err_0 is Fail,
{
    reveal(instead_triggers);
}

/// The triggers INSTEAD OF an INSERT on a view run once for each row, which is the new row; there
/// is no old one.
pub proof fn view_inserts_run_for_each_row(cx: Cx, run: Nested, def: TableDefV, ts: Seq<TriggerDefV>, columns: Option<Seq<Seq<char>>>, rows: Seq<Seq<ExprV>>, params: Seq<ValueV>, i: int, k: int, row: Seq<ValueV>, k1: int, e: StopV)
    requires
        0 <= i < rows.len(),
        view_proposed(branch(branch(branch(cx.env, k), 0), i), def, columns, rows[i], params) == Ok::<Seq<ValueV>, ErrorV>(row),
    ensures
        fired(cx, run, def, ts, None, Some(row), k) == Err::<((), int), StopV>(e) ==> view_inserts(cx, run, def, ts, columns, rows, params, i, k) == Err::<((), int), StopV>(e),
        fired(cx, run, def, ts, None, Some(row), k) == Ok::<((), int), StopV>(((), k1)) ==> view_inserts(cx, run, def, ts, columns, rows, params, i, k) == view_inserts(cx, run, def, ts, columns, rows, params, i + 1, k1),
        view_inserts(cx, run, def, ts, columns, rows, params, rows.len() as int, k) == Ok::<((), int), StopV>(((), k)),
{
}

/// The triggers INSTEAD OF an UPDATE or a DELETE on a view run for the rows on which the condition
/// is true: those are counted, the others are passed over.
pub proof fn view_changes_run_for_what_is_true(cx: Cx, run: Nested, s: SchemaV, def: TableDefV, ts: Seq<TriggerDefV>, cond: ExprV, change: Option<(Seq<int>, Seq<(Seq<char>, ExprV)>)>, rows: Seq<Seq<ValueV>>, params: Seq<ValueV>, i: int, n: int, k: int, v: ValueV, after: Option<Seq<ValueV>>, k1: int, e: StopV)
    requires
        0 <= i < rows.len(),
        value_of(branch(branch(branch(cx.env, k), 4), i), cond, Some((s, rows[i])), params) == Ok::<ValueV, ErrorV>(v),
        row_after(branch(branch(branch(cx.env, k), 6), i), s, change, rows[i], params) == Ok::<Option<Seq<ValueV>>, ErrorV>(after),
    ensures
        v == ValueV::Bool(false) || v == ValueV::Null ==> view_changes(cx, run, s, def, ts, Some(cond), change, rows, params, i, n, k) == view_changes(cx, run, s, def, ts, Some(cond), change, rows, params, i + 1, n, k),
        v == ValueV::Bool(true) && fired(cx, run, def, ts, Some(rows[i]), after, k) == Ok::<((), int), StopV>(((), k1)) ==> view_changes(cx, run, s, def, ts, Some(cond), change, rows, params, i, n, k) == view_changes(cx, run, s, def, ts, Some(cond), change, rows, params, i + 1, n + 1, k1),
        v == ValueV::Bool(true) && fired(cx, run, def, ts, Some(rows[i]), after, k) == Err::<((), int), StopV>(e) ==> view_changes(cx, run, s, def, ts, Some(cond), change, rows, params, i, n, k) == Err::<(int, int), StopV>(e),
        view_changes(cx, run, s, def, ts, Some(cond), change, rows, params, rows.len() as int, n, k) == Ok::<(int, int), StopV>((n, k)),
        change is None ==> after is None,
{
}

// --- nesting ---

/// Statements in triggers run without parameters, each level one less deep; where no level is
/// left they fail.
pub proof fn nesting_comes_to_an_end(env: EnvV, j: Seq<ReplyV>, depth: nat, stmt: StmtV, k: int)
    ensures
        nested(env, j, 0)(stmt, k) is Err,
        depth > 0 ==> nested(env, j, depth)(stmt, k) == executed((Cx { env, j }), nested(env, j, (depth - 1) as nat), stmt, Seq::empty(), k),
{
}

/// A statement that writes rows counts what it wrote. A query and the statements of a transaction
/// are not executed.
pub proof fn statements_count_what_they_write(cx: Cx, run: Nested, stmt: StmtV, params: Seq<ValueV>, k: int, n: int, out: Option<SelectOutV>, k1: int, q: Box<SelectStmtV>)
    ensures
        (stmt is Insert || stmt is Update || stmt is Delete) && rows_written(cx, run, stmt, params, k) == Ok::<((int, Option<SelectOutV>), int), StopV>(((n, out), k1)) ==> executed(cx, run, stmt, params, k) == Ok::<(int, int), StopV>((n, k1)),
        (stmt is Select || stmt is Begin || stmt is Commit || stmt is Rollback || stmt is Savepoint || stmt is ReleaseSavepoint || stmt is RollbackTo) ==> failed(executed(cx, run, stmt, params, k), k),
{
    reveal(executed);
}

// --- rows that a statement names ---

/// In the statements of a trigger a column of NEW or OLD is replaced by its value; other columns and
/// literals stay, and an operator keeps its operands apart.
pub proof fn trigger_expressions_see_the_rows(q: Seq<char>, name: Seq<char>, def: TableDefV, before: Option<Seq<ValueV>>, after: Option<Seq<ValueV>>, v: ValueV, a: ExprV, op: BinOp, b: ExprV, fa: ExprV, fb: ExprV)
    ensures
        names_row(q) ==> with_rows(ExprV::Column { table: Some(q), name }, def, before, after) == row_column(q, name, def, before, after),
        !names_row(q) ==> with_rows(ExprV::Column { table: Some(q), name }, def, before, after) == Ok::<ExprV, ErrorV>(ExprV::Column { table: Some(q), name }),
        with_rows(ExprV::Column { table: None, name }, def, before, after) == Ok::<ExprV, ErrorV>(ExprV::Column { table: None, name }),
        with_rows(ExprV::Literal(v), def, before, after) == Ok::<ExprV, ErrorV>(ExprV::Literal(v)),
        with_rows(a, def, before, after) == Ok::<ExprV, ErrorV>(fa) && with_rows(b, def, before, after) == Ok::<ExprV, ErrorV>(fb) ==> with_rows(ExprV::Binary(Box::new(a), op, Box::new(b)), def, before, after) == Ok::<ExprV, ErrorV>(ExprV::Binary(Box::new(fa), op, Box::new(fb))),
{
    reveal_with_fuel(all_with_rows, 3);
    assert(seq![a, b].drop_first() =~= seq![b]);
    assert(seq![b].drop_first() =~= Seq::<ExprV>::empty());
    if with_rows(a, def, before, after) == Ok::<ExprV, ErrorV>(fa) && with_rows(b, def, before, after) == Ok::<ExprV, ErrorV>(fb) {
        assert(all_with_rows(seq![b], def, before, after)->Ok_0 =~= seq![fb]);
        assert(all_with_rows(seq![a, b], def, before, after)->Ok_0 =~= seq![fa, fb]);
    }
}

/// The condition of an UPDATE or a DELETE in a trigger, and each assignment, see the rows.
pub proof fn trigger_statements_see_the_rows(table: Seq<char>, sets: Seq<(Seq<char>, ExprV)>, cond: ExprV, returning: Option<Seq<SelectItemV>>, def: TableDefV, before: Option<Seq<ValueV>>, after: Option<Seq<ValueV>>, c: ExprV)
    requires
        with_rows(cond, def, before, after) == Ok::<ExprV, ErrorV>(c),
    ensures
        stmt_with_rows(StmtV::Delete { table, where_clause: Some(cond), returning }, def, before, after) == Ok::<StmtV, ErrorV>(StmtV::Delete { table, where_clause: Some(c), returning }),
        ({
            let r = stmt_with_rows(StmtV::Update { table, sets, where_clause: Some(cond), returning }, def, before, after);
            r is Ok ==> {
                &&& r->Ok_0 is Update
                &&& r->Ok_0->Update_table == table
                &&& r->Ok_0->Update_where_clause == Some(c)
                &&& r->Ok_0->Update_returning == returning
                &&& r->Ok_0->Update_sets.len() == sets.len()
                &&& forall|i: int| 0 <= i < sets.len() ==> (#[trigger] r->Ok_0->Update_sets[i]).0 == sets[i].0 && with_rows(sets[i].1, def, before, after) == Ok::<ExprV, ErrorV>(r->Ok_0->Update_sets[i].1)
            }
        }),
{
    if sets_with_rows(sets, def, before, after, 0) is Ok {
        lemma_sets(sets, def, before, after, 0);
        let new = sets_with_rows(sets, def, before, after, 0)->Ok_0;
        assert forall|i: int| 0 <= i < sets.len() implies (#[trigger] new[i]).0 == sets[i].0 && with_rows(sets[i].1, def, before, after) == Ok::<ExprV, ErrorV>(new[i].1) by {
            assert(new[i - 0] == new[i]);
            assert(sets[i] == sets[i]);
        }
    }
}

proof fn lemma_sets(sets: Seq<(Seq<char>, ExprV)>, def: TableDefV, before: Option<Seq<ValueV>>, after: Option<Seq<ValueV>>, from: int)
    requires
        0 <= from <= sets.len(),
        sets_with_rows(sets, def, before, after, from) is Ok,
    ensures
        sets_with_rows(sets, def, before, after, from)->Ok_0.len() == sets.len() - from,
        forall|i: int|
            from <= i < sets.len() ==> sets_with_rows(sets, def, before, after, from)->Ok_0[i - from].0 == (#[trigger] sets[i]).0 && with_rows(sets[i].1, def, before, after) == Ok::<ExprV, ErrorV>(sets_with_rows(sets, def, before, after, from)->Ok_0[i - from].1),
    decreases sets.len() - from,
{
    if from < sets.len() {
        lemma_sets(sets, def, before, after, from + 1);
        let rest = sets_with_rows(sets, def, before, after, from + 1)->Ok_0;
        let all = sets_with_rows(sets, def, before, after, from)->Ok_0;
        assert forall|i: int| from <= i < sets.len() implies all[i - from].0 == (#[trigger] sets[i]).0 && with_rows(sets[i].1, def, before, after) == Ok::<ExprV, ErrorV>(all[i - from].1) by {
            if i > from {
                assert(all[i - from] == rest[i - (from + 1)]);
            }
        }
    }
}

/// An INSERT with as many values as it names columns or not at all; a column that is named twice,
/// and one that is not there, are refused.
pub proof fn inserts_need_matching_values(env: EnvV, def: TableDefV, names: Seq<Seq<char>>, es: Seq<ExprV>, params: Seq<ValueV>, i: int, k: int)
    ensures
        names.len() != es.len() ==> proposed(env, def, Some(names), es, params) is Err,
        names.len() == es.len() && 0 <= i < k < names.len() && names[i] == names[k] ==> proposed(env, def, Some(names), es, params) is Err,
{
    if names.len() == es.len() && 0 <= i < k < names.len() && names[i] == names[k] {
        assert(repeated(names, i)) by {
            assert(names[k] == names[i]);
        }
        lemma_repeated(env, def, names, es, params, defaults(def), 0, i);
    }
}

proof fn lemma_repeated(env: EnvV, def: TableDefV, names: Seq<Seq<char>>, es: Seq<ExprV>, params: Seq<ValueV>, row: Seq<ValueV>, from: int, i: int)
    requires
        0 <= from <= i < es.len(),
        repeated(names, i),
    ensures
        named_values(env, def, names, es, params, row, from) is Err,
    decreases i - from,
{
    if from < i {
        match place_of_column(def, names[from]) {
            Ok(p) => {
                match value_of(branch(env, from), es[from], None, params) {
                    Ok(v) => lemma_repeated(env, def, names, es, params, row.update(p, v), from + 1, i),
                    Err(e) => {},
                }
            },
            Err(e) => {},
        }
    }
}

/// There is a column at `p`, and it has that name.
pub open spec fn has_name(def: TableDefV, p: int, name: Seq<char>) -> bool {
    0 <= p < def.columns.len() && def.columns[p].name == name
}

/// The columns of an index are the places of the columns that are named, in their order.
pub proof fn index_columns_are_placed(def: TableDefV, names: Seq<Seq<char>>, from: int)
    requires
        0 <= from <= names.len(),
        places_of(def, names, from) is Ok,
    ensures
        places_of(def, names, from)->Ok_0.len() == names.len() - from,
        forall|i: int| from <= i < names.len() ==> has_name(def, places_of(def, names, from)->Ok_0[i - from], #[trigger] names[i]),
    decreases names.len() - from,
{
    if from < names.len() {
        index_columns_are_placed(def, names, from + 1);
        lemma_place(def, names[from], 0);
        let rest = places_of(def, names, from + 1)->Ok_0;
        let all = places_of(def, names, from)->Ok_0;
        assert(has_name(def, all[0], names[from]));
        assert forall|i: int| from <= i < names.len() implies has_name(def, all[i - from], #[trigger] names[i]) by {
            if i > from {
                assert(all[i - from] == rest[i - (from + 1)]);
            }
        }
    }
}

proof fn lemma_place(def: TableDefV, name: Seq<char>, from: int)
    requires
        0 <= from,
        place_named(def.columns, name, from) is Some,
    ensures
        ({
            let p = place_named(def.columns, name, from)->0;
            from <= p < def.columns.len() && def.columns[p].name == name
        }),
    decreases def.columns.len() - from,
{
    if def.columns[from].name != name {
        lemma_place(def, name, from + 1);
    }
}

} // verus!
