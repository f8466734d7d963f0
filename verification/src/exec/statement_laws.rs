//! What whole statements come to: a SELECT from its table to its rows, and a write from its
//! condition to what it asks of the store.
#[allow(unused_imports)]
use vstd::prelude::*;

#[allow(unused_imports)]
use crate::catalog::{TableDefV, TriggerDefV};
#[allow(unused_imports)]
use crate::error::ErrorV;
#[allow(unused_imports)]
use crate::exec::aggregate::{aggregate_items, aggregate_value};
#[allow(unused_imports)]
use crate::exec::change::{candidates, check_exprs, set_places, valid_condition};
#[allow(unused_imports)]
use crate::exec::check::{valid_columns, without_aggregates};
#[allow(unused_imports)]
use crate::exec::eval::value_of;
#[allow(unused_imports)]
use crate::exec::execute::{
    changed, changed_row, changed_rows, changes, fired, inserted, inserted_row, inserted_rows, new_row, opt_returned, row_after,
    row_level, rows_written, statement_level, triggers_of, updated, with_id, write_of, Cx, InsertV, Nested,
};
#[allow(unused_imports)]
use crate::exec::joins::{one_table, ranked_calls, with_ranks};
#[allow(unused_imports)]
use crate::exec::journal::{all_wide, there, ActionV, ReplyV, StopV};
#[allow(unused_imports)]
use crate::exec::ops::{branch, EnvV};
#[allow(unused_imports)]
use crate::exec::output::{group_rows, grouped_output, rows_at, SelectOutV};
#[allow(unused_imports)]
use crate::exec::row_laws::{keeps, limits_cut_rows};
#[allow(unused_imports)]
use crate::exec::rows::{cut, distinct_rows, groups_of, limited};
#[allow(unused_imports)]
use crate::exec::schema::{def_ok, SchemaV};
#[allow(unused_imports)]
use crate::exec::select::{
    absent, all_joined, any_aggregate, any_window, first_rows, fixpoint, found, finder, has_derived, named, plain_output,
    projected, queried, row_value, runner, settled_select, sorted_rows, FoundV, Runner, ScopeV,
};
#[allow(unused_imports)]
use crate::exec::select_laws::{
    decided, groups_decided, groups_give_a_row_each, projection_shows_each_item, shows, where_keeps_what_is_true,
};
#[allow(unused_imports)]
use crate::exec::source::{entry_named, result_table, CteEntryV, DataSource};
#[allow(unused_imports)]
use crate::exec::subquery::{any_subquery, select_parts};
#[allow(unused_imports)]
use crate::exec::window::{key_records, row_keys};
#[allow(unused_imports)]
use crate::exec::write::proposed;
#[allow(unused_imports)]
use crate::exec::write_laws::{rows_decided, writes_take_what_is_true};
#[allow(unused_imports)]
use crate::record::ValueV;
#[allow(unused_imports)]
use crate::sql::ast::{AggFunc, ExprV, InsertSourceV, SelectItemV, SelectStmtV, StmtV};
#[allow(unused_imports)]
use crate::sql::walk::{mentions_aggregate, qualifier_of};

verus! {

// --- a SELECT from one table ---

/// A SELECT from one table that is there, without subqueries, joins or ranked queries. Its table
/// is reached as `rows`.
pub open spec fn reads<S: DataSource>(src: S, env: EnvV, sc: ScopeV, stmt: SelectStmtV, params: Seq<ValueV>, def: TableDefV, rows: Seq<Seq<ValueV>>) -> bool {
    &&& stmt.with.len() == 0
    &&& !has_derived(stmt)
    &&& !any_subquery(select_parts(stmt))
    &&& stmt.compound.len() == 0
    &&& stmt.joins.len() == 0
    &&& ranked_calls(stmt).len() == 0
    &&& stmt.from is Some
    &&& found(src, branch(branch(env, 9), 0), sc, stmt.from->0.name) == Ok::<Option<FoundV>, ErrorV>(Some(FoundV { def, rows: None }))
    &&& first_rows(src, env, FoundV { def, rows: None }, qualifier_of(stmt.from->0), stmt, params) == Ok::<Seq<Seq<ValueV>>, ErrorV>(rows)
}

/// The rows that its WHERE leaves.
pub open spec fn leaves<S: DataSource>(src: S, env: EnvV, sc: ScopeV, stmt: SelectStmtV, params: Seq<ValueV>, def: TableDefV, rows: Seq<Seq<ValueV>>, yes: spec_fn(int) -> bool) -> bool {
    let s = one_table(qualifier_of(stmt.from->0), def);
    match stmt.where_clause {
        None => forall|i: int| 0 <= i < rows.len() ==> #[trigger] yes(i),
        Some(c) => {
            &&& without_aggregates(c, "WHERE"@) is Ok
            &&& valid_columns(c, s) is Ok
            &&& decided(branch(env, 1), runner(src, sc, params), sc.ctes, c, s, rows, params, yes)
        },
    }
}

proof fn lemma_reads<S: DataSource>(src: S, env: EnvV, sc: ScopeV, stmt: SelectStmtV, params: Seq<ValueV>, def: TableDefV, rows: Seq<Seq<ValueV>>, yes: spec_fn(int) -> bool) -> (at: Seq<int>)
    requires
        reads(src, env, sc, stmt, params, def, rows),
        leaves(src, env, sc, stmt, params, def, rows, yes),
    ensures
        keeps(at, rows.len() as int, yes),
        queried(src, env, sc, stmt, params) == crate::exec::select::rows_output(
            env,
            runner(src, sc, params),
            sc.ctes,
            stmt,
            one_table(qualifier_of(stmt.from->0), def),
            Seq::new(at.len(), |t: int| rows[at[t]]),
            params,
        ),
{
    let s = one_table(qualifier_of(stmt.from->0), def);
    let run = runner(src, sc, params);
    let find = finder(src, env, sc);
    assert(settled_select(branch(env, 4), run, sc.ctes, stmt) == Ok::<SelectStmtV, ErrorV>(stmt));
    assert(find(0, stmt.from->0.name) == found(src, branch(branch(env, 9), 0), sc, stmt.from->0.name));
    assert(with_ranks(src, branch(env, 19), s, ranked_calls(stmt), params, 0) == Ok::<SchemaV, ErrorV>(s));
    assert(all_joined(src, env, find, stmt, s, rows, params, 0) == Ok::<(SchemaV, Seq<Seq<ValueV>>), ErrorV>((s, rows)));
    match stmt.where_clause {
        None => {
            let at = Seq::new(rows.len(), |i: int| i);
            assert forall|i: int| 0 <= i < rows.len() && #[trigger] yes(i) implies at.contains(i) by {
                assert(at[i] == i);
            }
            assert(Seq::new(at.len(), |t: int| rows[at[t]]) =~= rows);
            at
        },
        Some(c) => where_keeps_what_is_true(branch(env, 1), run, sc.ctes, c, s, rows, params, yes),
    }
}

/// A SELECT of expressions gives one row for each row of its table on which its WHERE is true, in
/// their order, with the value of its `j`-th item on that row in the `j`-th column.
pub proof fn selects_show_what_is_true<S: DataSource>(src: S, env: EnvV, sc: ScopeV, stmt: SelectStmtV, params: Seq<ValueV>, def: TableDefV, rows: Seq<Seq<ValueV>>, yes: spec_fn(int) -> bool) -> (at: Seq<int>)
    requires
        reads(src, env, sc, stmt, params, def, rows),
        leaves(src, env, sc, stmt, params, def, rows, yes),
        forall|j: int| 0 <= j < stmt.projection.len() ==> (#[trigger] stmt.projection[j]) is Expr,
        stmt.group_by.len() == 0,
        !any_aggregate(stmt),
        stmt.having is None,
        !any_window(stmt),
        stmt.order_by.len() == 0,
        !stmt.distinct,
        stmt.limit is None,
        stmt.offset is None,
        queried(src, env, sc, stmt, params) is Ok,
    ensures
        keeps(at, rows.len() as int, yes),
        ({
            let out = queried(src, env, sc, stmt, params)->Ok_0.rows;
            let s = one_table(qualifier_of(stmt.from->0), def);
            &&& out.len() == at.len()
            &&& forall|t: int| 0 <= t < at.len() ==> (#[trigger] out[t]).len() == stmt.projection.len()
            &&& forall|t: int, j: int| 0 <= t < at.len() && 0 <= j < stmt.projection.len() ==> row_value(branch(branch(branch(env, 3), t), j), runner(src, sc, params), sc.ctes, (#[trigger] stmt.projection[j])->expr, s, rows[at[t]], params) == Ok::<ValueV, ErrorV>(#[trigger] out[t][j])
        }),
{
    let at = lemma_reads(src, env, sc, stmt, params, def, rows, yes);
    let s = one_table(qualifier_of(stmt.from->0), def);
    let kept = Seq::new(at.len(), |t: int| rows[at[t]]);
    let run = runner(src, sc, params);
    assert(cut(kept, 0, None) =~= kept);
    assert(limited(env, kept, stmt.limit, stmt.offset, params) == Ok::<Seq<Seq<ValueV>>, ErrorV>(kept));
    projection_shows_each_item(branch(env, 3), run, sc.ctes, stmt.projection, s, kept, params);
    at
}

/// A SELECT of one aggregate gives one row: the aggregate over the rows of its table on which its
/// WHERE is true.
pub proof fn aggregates_see_what_is_true<S: DataSource>(
    src: S,
    env: EnvV,
    sc: ScopeV,
    stmt: SelectStmtV,
    params: Seq<ValueV>,
    def: TableDefV,
    rows: Seq<Seq<ValueV>>,
    yes: spec_fn(int) -> bool,
    func: AggFunc,
    arg: Option<Box<ExprV>>,
    distinct: bool,
    sep: Option<Box<ExprV>>,
    alias: Option<Seq<char>>,
) -> (at: Seq<int>)
    requires
        reads(src, env, sc, stmt, params, def, rows),
        leaves(src, env, sc, stmt, params, def, rows, yes),
        stmt.projection == seq![SelectItemV::Expr { expr: ExprV::Aggregate { func, arg, distinct, sep }, alias }],
        stmt.group_by.len() == 0,
        stmt.having is None,
        stmt.limit is None,
        stmt.offset is None,
        queried(src, env, sc, stmt, params) is Ok,
    ensures
        keeps(at, rows.len() as int, yes),
        ({
            let out = queried(src, env, sc, stmt, params)->Ok_0.rows;
            let s = one_table(qualifier_of(stmt.from->0), def);
            let here = branch(branch(branch(branch(env, 14), 0), 0), 0);
            &&& out.len() == 1
            &&& out[0].len() == 1
            &&& aggregate_value(here, func, arg, distinct, sep, s, Seq::new(at.len(), |t: int| rows[at[t]]), params) == Ok::<ValueV, ErrorV>(out[0][0])
        }),
{
    let at = lemma_reads(src, env, sc, stmt, params, def, rows, yes);
    let s = one_table(qualifier_of(stmt.from->0), def);
    let kept = Seq::new(at.len(), |t: int| rows[at[t]]);
    let e = ExprV::Aggregate { func, arg, distinct, sep };
    assert(stmt.projection[0] == SelectItemV::Expr { expr: e, alias });
    assert(mentions_aggregate(e));
    assert(any_aggregate(stmt)) by {
        assert(stmt.projection[0] is Expr && mentions_aggregate(stmt.projection[0]->expr));
    }
    reveal_with_fuel(aggregate_items, 2);
    let here = branch(branch(branch(branch(env, 14), 0), 0), 0);
    let v = aggregate_value(here, func, arg, distinct, sep, s, kept, params);
    let one = aggregate_items(branch(branch(env, 14), 0), stmt.projection, s, kept, params, 0);
    assert(one is Ok);
    let row = one->Ok_0.1;
    assert(v is Ok);
    assert(row =~= seq![v->Ok_0]);
    assert(cut(seq![row], 0, None) =~= seq![row]);
    at
}

/// OFFSET and LIMIT of a SELECT without DISTINCT cut the sorted rows before they are shown; with
/// DISTINCT they cut the shown rows after the repeated ones have gone.
pub proof fn limits_cut_what_is_shown(env: EnvV, run: Runner, ctes: Seq<CteEntryV>, stmt: SelectStmtV, s: SchemaV, rows: Seq<Seq<ValueV>>, params: Seq<ValueV>, sorted: Seq<Seq<ValueV>>, n: i64, k: i64)
    requires
        sorted_rows(env, stmt, s, rows, params) == Ok::<Seq<Seq<ValueV>>, ErrorV>(sorted),
        plain_output(env, run, ctes, stmt, s, rows, params) is Ok,
        forall|j: int| 0 <= j < stmt.projection.len() ==> (#[trigger] stmt.projection[j]) is Expr,
        0 <= n <= usize::MAX,
        0 <= k <= usize::MAX,
        stmt.offset is Some ==> value_of(branch(env, 20), stmt.offset->0, None, params) == Ok::<ValueV, ErrorV>(ValueV::Integer(k)),
        stmt.offset is None ==> k == 0,
        stmt.limit is Some ==> value_of(branch(env, 21), stmt.limit->0, None, params) == Ok::<ValueV, ErrorV>(ValueV::Integer(n)),
    ensures
        ({
            let out = plain_output(env, run, ctes, stmt, s, rows, params)->Ok_0.rows;
            let left = if k < sorted.len() {
                sorted.len() - k
            } else {
                0
            };
            !stmt.distinct ==> {
                &&& out.len() == (if stmt.limit is Some && n < left {
                    n as int
                } else {
                    left
                })
                &&& forall|t: int, j: int| 0 <= t < out.len() && 0 <= j < stmt.projection.len() ==> row_value(branch(branch(branch(env, 3), t), j), run, ctes, (#[trigger] stmt.projection[j])->expr, s, sorted[k + t], params) == Ok::<ValueV, ErrorV>(#[trigger] out[t][j])
            }
        }),
        ({
            let out = plain_output(env, run, ctes, stmt, s, rows, params)->Ok_0.rows;
            let shown = projected(branch(env, 3), run, ctes, stmt.projection, s, sorted, params, 0)->Ok_0;
            let all = distinct_rows(shown);
            let left = if k < all.len() {
                all.len() - k
            } else {
                0
            };
            stmt.distinct ==> {
                &&& out.len() == (if stmt.limit is Some && n < left {
                    n as int
                } else {
                    left
                })
                &&& forall|t: int| 0 <= t < out.len() ==> #[trigger] out[t] == all[k + t]
            }
        }),
{
    if stmt.distinct {
        let shown = projected(branch(env, 3), run, ctes, stmt.projection, s, sorted, params, 0)->Ok_0;
        limits_cut_rows(env, distinct_rows(shown), stmt.limit, stmt.offset, params, n, k);
    } else {
        limits_cut_rows(env, sorted, stmt.limit, stmt.offset, params, n, k);
        let kept = limited(env, sorted, stmt.limit, stmt.offset, params)->Ok_0;
        projection_shows_each_item(branch(env, 3), run, ctes, stmt.projection, s, kept, params);
        let out = plain_output(env, run, ctes, stmt, s, rows, params)->Ok_0.rows;
        assert forall|t: int, j: int| 0 <= t < out.len() && 0 <= j < stmt.projection.len() implies row_value(branch(branch(branch(env, 3), t), j), run, ctes, (#[trigger] stmt.projection[j])->expr, s, sorted[k + t], params) == Ok::<ValueV, ErrorV>(#[trigger] out[t][j]) by {
            assert(kept[t] == sorted[k + t]);
        }
    }
}

/// A SELECT with GROUP BY groups the rows by the values of its expressions on them, and gives a
/// row for each group of which HAVING is true, in the order in which the groups first appear.
pub proof fn grouped_selects_give_their_groups(env: EnvV, stmt: SelectStmtV, s: SchemaV, rows: Seq<Seq<ValueV>>, params: Seq<ValueV>, keys: Seq<Seq<ValueV>>, yes: spec_fn(int) -> bool) -> (at: Seq<int>)
    requires
        grouped_output(env, stmt, s, rows, params) is Ok,
        !stmt.distinct,
        stmt.order_by.len() == 0,
        stmt.limit is None,
        stmt.offset is None,
        row_keys(branch(env, 0), stmt.group_by, s, rows, params, 0) == Ok::<Seq<Seq<ValueV>>, ErrorV>(keys),
        groups_decided(branch(env, 1), stmt.having, s, rows, params, groups_of(key_records(keys), rows.len()), yes),
    ensures
        ({
            let groups = groups_of(key_records(keys), rows.len());
            let out = grouped_output(env, stmt, s, rows, params)->Ok_0.rows;
            &&& keeps(at, groups.len() as int, yes)
            &&& out.len() == at.len()
            &&& forall|t: int| 0 <= t < at.len() ==> shows(branch(branch(branch(env, 1), at[t]), 1), stmt.projection, s, rows_at(rows, groups[at[t]]), params, #[trigger] out[t])
        }),
{
    let groups = groups_of(key_records(keys), rows.len());
    let out = group_rows(branch(env, 1), stmt.projection, stmt.having, s, rows, params, groups, 0)->Ok_0;
    assert(cut(out, 0, None) =~= out);
    groups_give_a_row_each(branch(env, 1), stmt.projection, stmt.having, s, rows, params, groups, yes)
}

// --- named results ---

/// A name means the first named result that has it, with its columns and rows, before any table
/// of the store.
pub proof fn named_results_come_first<S: DataSource>(src: S, env: EnvV, sc: ScopeV, name: Seq<char>, i: int)
    requires
        0 <= i < sc.ctes.len(),
        sc.ctes[i].name == name,
        forall|k: int| 0 <= k < i ==> (#[trigger] sc.ctes[k]).name != name,
    ensures
        found(src, env, sc, name) == Ok::<Option<FoundV>, ErrorV>(Some(FoundV { def: sc.ctes[i].def, rows: Some(sc.ctes[i].rows) })),
{
    lemma_entry(sc.ctes, name, 0, i);
}

proof fn lemma_entry(s: Seq<CteEntryV>, name: Seq<char>, from: int, i: int)
    requires
        0 <= from <= i < s.len(),
        s[i].name == name,
        forall|k: int| 0 <= k < i ==> (#[trigger] s[k]).name != name,
    ensures
        entry_named(s, name, from) == Some(i),
    decreases i - from,
{
    if from < i {
        assert(s[from].name != name);
        lemma_entry(s, name, from + 1, i);
    }
}

/// A named result has the name, the columns and the rows of its query.
pub proof fn named_results_hold_their_rows(name: Seq<char>, out: SelectOutV)
    ensures
        named(name, out).name == name,
        named(name, out).rows == out.rows,
        named(name, out).def.columns.len() == out.columns.len(),
        forall|i: int| 0 <= i < out.columns.len() ==> (#[trigger] named(name, out).def.columns[i]).name == out.columns[i] && !named(name, out).def.columns[i].dropped,
        forall|i: int| 0 <= i < out.columns.len() && i <= usize::MAX ==> #[trigger] named(name, out).def.logical_order[i] == i,
        named(name, out).def.logical_order.len() == out.columns.len(),
{
}

/// A recursive expression holds the rows that it started from, then those of its steps; it ends
/// with the step that gives nothing new. With UNION ALL all rows of a step are new, with UNION
/// those that equal none before.
pub proof fn recursion_adds_to_its_seed(env: EnvV, run: Runner, ctes: Seq<CteEntryV>, at: int, name: Seq<char>, columns: Seq<Seq<char>>, term: SelectStmtV, keep_all: bool, all: Seq<Seq<ValueV>>, working: Seq<Seq<ValueV>>)
    requires
        fixpoint(env, run, ctes, at, name, columns, term, keep_all, all, working) is Ok,
    ensures
        ({
            let out = fixpoint(env, run, ctes, at, name, columns, term, keep_all, all, working)->Ok_0;
            let step = run(branch(env, all.len() as int), ctes.insert(at, CteEntryV { name, def: result_table(name, columns), rows: working }), term);
            &&& all.len() <= out.len()
            &&& forall|i: int| 0 <= i < all.len() ==> #[trigger] out[i] == all[i]
            &&& step is Ok
            &&& keep_all ==> all.len() + step->Ok_0.rows.len() <= out.len() && forall|i: int| 0 <= i < step->Ok_0.rows.len() ==> out[all.len() + i] == #[trigger] step->Ok_0.rows[i]
            &&& keep_all && step->Ok_0.rows.len() == 0 ==> out == all
            &&& !keep_all && absent(distinct_rows(step->Ok_0.rows), all).len() == 0 ==> out == all
            &&& !keep_all ==> all.len() + absent(distinct_rows(step->Ok_0.rows), all).len() <= out.len() && forall|i: int| 0 <= i < absent(distinct_rows(step->Ok_0.rows), all).len() ==> out[all.len() + i] == #[trigger] absent(distinct_rows(step->Ok_0.rows), all)[i]
        }),
    decreases crate::exec::select::MAX_ROWS - all.len(),
{
    let step = run(branch(env, all.len() as int), ctes.insert(at, CteEntryV { name, def: result_table(name, columns), rows: working }), term);
    let fresh = if keep_all {
        step->Ok_0.rows
    } else {
        absent(distinct_rows(step->Ok_0.rows), all)
    };
    if fresh.len() > 0 {
        recursion_adds_to_its_seed(env, run, ctes, at, name, columns, term, keep_all, all + fresh, fresh);
        let out = fixpoint(env, run, ctes, at, name, columns, term, keep_all, all, working)->Ok_0;
        assert forall|i: int| 0 <= i < all.len() implies #[trigger] out[i] == all[i] by {
            assert(out[i] == (all + fresh)[i]);
        }
        assert forall|i: int| 0 <= i < fresh.len() implies out[all.len() + i] == #[trigger] fresh[i] by {
            assert(out[all.len() + i] == (all + fresh)[all.len() + i]);
        }
    }
}

// --- writes on a table without triggers ---

/// What a store answers to a write on a table without triggers, up to the rows that it may change:
/// the table, no triggers before or after, and the rows.
pub open spec fn opening(def: TableDefV, found: Seq<(i64, Option<Seq<ValueV>>)>) -> Seq<ReplyV> {
    seq![ReplyV::Table(Some(def)), ReplyV::Triggers(Seq::empty()), ReplyV::Triggers(Seq::empty()), ReplyV::Rows(found)]
}

proof fn lemma_no_triggers(cx: Cx, run: Nested, def: TableDefV, before: Option<Seq<ValueV>>, after: Option<Seq<ValueV>>, k: int)
    ensures
        row_level(Seq::empty()) == Seq::<TriggerDefV>::empty(),
        statement_level(Seq::empty()) == Seq::<TriggerDefV>::empty(),
        fired(cx, run, def, Seq::empty(), before, after, k) == Ok::<((), int), StopV>(((), k)),
{
    reveal(fired);
    assert(row_level(Seq::empty()) =~= Seq::<TriggerDefV>::empty());
    assert(statement_level(Seq::empty()) =~= Seq::<TriggerDefV>::empty());
}

proof fn lemma_changed_rows(cx: Cx, run: Nested, s: SchemaV, def: TableDefV, list: Seq<(i64, Seq<ValueV>, Option<Seq<ValueV>>)>, params: Seq<ValueV>, i: int, k: int, t: int)
    requires
        0 <= i <= list.len(),
        0 <= t,
        0 <= k,
        i <= t,
        cx.j.len() == k + (t - i),
        forall|m: int| k <= m < cx.j.len() ==> #[trigger] cx.j[m] == ReplyV::Done,
    ensures
        changed_rows(cx, run, s, def, Seq::empty(), Seq::empty(), Seq::empty(), list, params, i, k) == (if t < list.len() {
            Err(StopV::Ask(write_of(def, list[t])))
        } else {
            Ok(((), k + (list.len() - i)))
        }),
    decreases list.len() - i,
{
    if i < list.len() {
        reveal(changed_row);
        lemma_no_triggers(cx, run, def, Some(list[i].1), list[i].2, k);
        if i < t {
            assert(cx.j[k] == ReplyV::Done);
            lemma_no_triggers(cx, run, def, Some(list[i].1), list[i].2, k + 1);
            lemma_changed_rows(cx, run, s, def, list, params, i + 1, k + 1, t);
        }
    }
}

/// A DELETE on a table without triggers asks the store to delete the rows on which its condition
/// is true, one after the other, each by its identifier, and no others; then it is done, and has
/// counted them.
#[verifier::spinoff_prover]
pub proof fn deletes_remove_what_is_true(env: EnvV, run: Nested, table: Seq<char>, cond: Option<ExprV>, params: Seq<ValueV>, def: TableDefV, found: Seq<(i64, Option<Seq<ValueV>>)>, yes: spec_fn(int) -> bool, t: int) -> (at: Seq<int>)
    requires
        def_ok(def),
        all_wide(found, def.columns.len() as int),
        valid_condition(cond, one_table(table, def)) is Ok,
        candidates(branch(branch(env, 3), 3), table, def, cond, params) is Ok,
        rows_decided(branch(env, 4), one_table(table, def), cond, there(found, 0), params, yes),
        0 <= t,
        changes(branch(env, 4), one_table(table, def), cond, None, there(found, 0), params, 0) is Ok,
    ensures
        keeps(at, there(found, 0).len() as int, yes),
        ({
            let cx = Cx { env, j: opening(def, found) + Seq::new(t as nat, |i: int| ReplyV::Done) };
            rows_written(cx, run, StmtV::Delete { table, where_clause: cond, returning: None }, params, 0) == (if t < at.len() {
                Err(StopV::Ask(ActionV::DeleteRow { table: def, rowid: there(found, 0)[at[t]].0 }))
            } else {
                Ok(((at.len() as int, None::<SelectOutV>), 4 + at.len() as int))
            })
        }),
{
    let cx = Cx { env, j: opening(def, found) + Seq::new(t as nat, |i: int| ReplyV::Done) };
    let s = one_table(table, def);
    let rows = there(found, 0);
    let at = writes_take_what_is_true(branch(env, 4), s, cond, None, rows, params, yes);
    let list = changes(branch(env, 4), s, cond, None, rows, params, 0)->Ok_0;
    assert(cx.j[0] == ReplyV::Table(Some(def)));
    assert(cx.j[1] == ReplyV::Triggers(Seq::empty()));
    assert(cx.j[2] == ReplyV::Triggers(Seq::empty()));
    assert(cx.j[3] == ReplyV::Rows(found));
    reveal(rows_written);
    reveal(changed);
    reveal(triggers_of);
    reveal(opt_returned);
    lemma_no_triggers(cx, run, def, None, None, 4);
    lemma_changed_rows(cx, run, s, def, list, params, 0, 4, t);
    lemma_no_triggers(cx, run, def, None, None, 4 + list.len() as int);
    if t < at.len() {
        assert(list[t].0 == rows[at[t]].0);
        assert(list[t].2 is None);
    }
    at
}

/// An UPDATE on a table without triggers or CHECKs asks the store to write the rows on which its
/// condition is true, one after the other, each under its identifier with what its assignments
/// make of it, and no others; then it is done, and has counted them.
#[verifier::spinoff_prover]
pub proof fn updates_change_what_is_true(env: EnvV, run: Nested, table: Seq<char>, sets: Seq<(Seq<char>, ExprV)>, places: Seq<int>, cond: Option<ExprV>, params: Seq<ValueV>, def: TableDefV, found: Seq<(i64, Option<Seq<ValueV>>)>, yes: spec_fn(int) -> bool, t: int) -> (at: Seq<int>)
    requires
        def_ok(def),
        def.checks.len() == 0,
        all_wide(found, def.columns.len() as int),
        set_places(def, false, sets, one_table(table, def), 0) == Ok::<Seq<int>, ErrorV>(places),
        valid_condition(cond, one_table(table, def)) is Ok,
        candidates(branch(branch(env, 3), 3), table, def, cond, params) is Ok,
        rows_decided(branch(env, 4), one_table(table, def), cond, there(found, 0), params, yes),
        0 <= t,
        changes(branch(env, 4), one_table(table, def), cond, Some((places, sets)), there(found, 0), params, 0) is Ok,
    ensures
        keeps(at, there(found, 0).len() as int, yes),
        ({
            let cx = Cx { env, j: opening(def, found) + Seq::new(t as nat, |i: int| ReplyV::Done) };
            let row = there(found, 0)[at[t]];
            let to = row_after(branch(branch(branch(env, 4), 6), at[t]), one_table(table, def), Some((places, sets)), row.1, params);
            &&& t < at.len() ==> to is Ok && to->Ok_0 is Some && rows_written(cx, run, StmtV::Update { table, sets, where_clause: cond, returning: None }, params, 0) == Err::<((int, Option<SelectOutV>), int), StopV>(
                StopV::Ask(ActionV::UpdateRow { table: def, rowid: row.0, row: to->Ok_0->0 }),
            )
            &&& t >= at.len() ==> rows_written(cx, run, StmtV::Update { table, sets, where_clause: cond, returning: None }, params, 0) == Ok::<((int, Option<SelectOutV>), int), StopV>(((at.len() as int, None), 4 + at.len() as int))
        }),
{
    let cx = Cx { env, j: opening(def, found) + Seq::new(t as nat, |i: int| ReplyV::Done) };
    let s = one_table(table, def);
    let rows = there(found, 0);
    let change = Some((places, sets));
    let at = writes_take_what_is_true(branch(env, 4), s, cond, change, rows, params, yes);
    let list = changes(branch(env, 4), s, cond, change, rows, params, 0)->Ok_0;
    assert(cx.j[0] == ReplyV::Table(Some(def)));
    assert(cx.j[1] == ReplyV::Triggers(Seq::empty()));
    assert(cx.j[2] == ReplyV::Triggers(Seq::empty()));
    assert(cx.j[3] == ReplyV::Rows(found));
    reveal(rows_written);
    reveal(updated);
    reveal(changed);
    reveal(triggers_of);
    reveal(opt_returned);
    assert(check_exprs(def.checks, env.reals, 0) == Ok::<Seq<ExprV>, ErrorV>(Seq::empty()));
    lemma_no_triggers(cx, run, def, None, None, 4);
    lemma_changed_rows(cx, run, s, def, list, params, 0, 4, t);
    lemma_no_triggers(cx, run, def, None, None, 4 + list.len() as int);
    if t < at.len() {
        assert(list[t].0 == rows[at[t]].0);
    }
    at
}

/// The rows that an INSERT proposes, row `i` with the answers that came before it.
pub open spec fn proposals(env: EnvV, def: TableDefV, columns: Option<Seq<Seq<char>>>, rows: Seq<Seq<ExprV>>, params: Seq<ValueV>, made: Seq<Seq<ValueV>>) -> bool {
    made.len() == rows.len() && forall|i: int| 0 <= i < rows.len() ==> proposed(branch(branch(env, 3 + i), 0), def, columns, #[trigger] rows[i], params) == Ok::<Seq<ValueV>, ErrorV>(made[i])
}

proof fn lemma_inserted_rows(cx: Cx, run: Nested, w: InsertV, rows: Seq<Seq<ExprV>>, made: Seq<Seq<ValueV>>, ids: Seq<i64>, i: int)
    requires
        0 <= i <= rows.len(),
        i <= ids.len(),
        w.on_conflict is None,
        w.checks.len() == 0,
        w.before.len() == 0,
        w.after.len() == 0,
        proposals(cx.env, w.def, w.columns, rows, w.params, made),
        cx.j.len() == 3 + ids.len(),
        forall|m: int| 0 <= m < ids.len() ==> #[trigger] cx.j[3 + m] == ReplyV::Id(ids[m]),
    ensures
        ids.len() < rows.len() ==> inserted_rows(cx, run, w, rows, i, 3 + i) == Err::<(Seq<Seq<ValueV>>, int), StopV>(StopV::Ask(ActionV::InsertRow { table: w.def, row: made[ids.len() as int] })),
        ids.len() >= rows.len() ==> inserted_rows(cx, run, w, rows, i, 3 + i) is Ok && inserted_rows(cx, run, w, rows, i, 3 + i)->Ok_0.0 == Seq::new((rows.len() - i) as nat, |m: int| with_id(w.def, made[i + m], ids[i + m])) && inserted_rows(cx, run, w, rows, i, 3 + i)->Ok_0.1 == 3 + rows.len(),
    decreases rows.len() - i,
{
    if i < rows.len() {
        reveal(inserted_row);
        reveal(new_row);
        reveal(fired);
        assert(proposed(branch(branch(cx.env, 3 + i), 0), w.def, w.columns, rows[i], w.params) == Ok::<Seq<ValueV>, ErrorV>(made[i]));
        if i < ids.len() {
            assert(cx.j[3 + i] == ReplyV::Id(ids[i]));
            lemma_inserted_rows(cx, run, w, rows, made, ids, i + 1);
            if ids.len() >= rows.len() {
                let rest = Seq::new((rows.len() - (i + 1)) as nat, |m: int| with_id(w.def, made[i + 1 + m], ids[i + 1 + m]));
                assert(seq![with_id(w.def, made[i], ids[i])] + rest =~= Seq::new((rows.len() - i) as nat, |m: int| with_id(w.def, made[i + m], ids[i + m])));
            }
        }
    } else {
        assert(Seq::new((rows.len() - i) as nat, |m: int| with_id(w.def, made[i + m], ids[i + m])) =~= Seq::<Seq<ValueV>>::empty());
    }
}

/// An INSERT of values into a table without triggers or CHECKs asks the store to insert the rows
/// that it proposes, one after the other; then it is done, and has counted them.
#[verifier::spinoff_prover]
pub proof fn inserts_store_what_is_proposed(env: EnvV, run: Nested, table: Seq<char>, columns: Option<Seq<Seq<char>>>, rows: Seq<Seq<ExprV>>, params: Seq<ValueV>, def: TableDefV, made: Seq<Seq<ValueV>>, ids: Seq<i64>)
    requires
        def_ok(def),
        def.checks.len() == 0,
        proposals(env, def, columns, rows, params, made),
    ensures
        ({
            let cx = Cx { env, j: seq![ReplyV::Table(Some(def)), ReplyV::Triggers(Seq::empty()), ReplyV::Triggers(Seq::empty())] + Seq::new(ids.len(), |i: int| ReplyV::Id(ids[i])) };
            let stmt = StmtV::Insert { table, columns, source: InsertSourceV::Values(rows), on_conflict: None, returning: None };
            rows_written(cx, run, stmt, params, 0) == (if ids.len() < rows.len() {
                Err(StopV::Ask(ActionV::InsertRow { table: def, row: made[ids.len() as int] }))
            } else {
                Ok(((rows.len() as int, None::<SelectOutV>), 3 + rows.len() as int))
            })
        }),
{
    let cx = Cx { env, j: seq![ReplyV::Table(Some(def)), ReplyV::Triggers(Seq::empty()), ReplyV::Triggers(Seq::empty())] + Seq::new(ids.len(), |i: int| ReplyV::Id(ids[i])) };
    assert(cx.j[0] == ReplyV::Table(Some(def)));
    assert(cx.j[1] == ReplyV::Triggers(Seq::empty()));
    assert(cx.j[2] == ReplyV::Triggers(Seq::empty()));
    assert forall|m: int| 0 <= m < ids.len() implies #[trigger] cx.j[3 + m] == ReplyV::Id(ids[m]) by {}
    reveal(rows_written);
    reveal(inserted);
    reveal(triggers_of);
    reveal(opt_returned);
    assert(check_exprs(def.checks, env.reals, 0) == Ok::<Seq<ExprV>, ErrorV>(Seq::empty()));
    lemma_no_triggers(cx, run, def, None, None, 3);
    lemma_no_triggers(cx, run, def, None, None, 3 + rows.len() as int);
    let w = InsertV { table, def, columns, on_conflict: None, params, checks: Seq::empty(), before: Seq::empty(), after: Seq::empty(), update_before: row_level(Seq::empty()), update_after: row_level(Seq::empty()) };
    lemma_inserted_rows(cx, run, w, rows, made, ids, 0);
}

/// A write first asks for its table, and fails where neither a table nor a view has the name.
pub proof fn writes_look_for_their_table(cx: Cx, run: Nested, table: Seq<char>, cond: Option<ExprV>, sets: Seq<(Seq<char>, ExprV)>, columns: Option<Seq<Seq<char>>>, rows: Seq<Seq<ExprV>>, params: Seq<ValueV>)
    ensures
        cx.j.len() == 0 ==> rows_written(cx, run, StmtV::Delete { table, where_clause: cond, returning: None }, params, 0) == Err::<((int, Option<SelectOutV>), int), StopV>(StopV::Ask(ActionV::FindTable(table))),
        cx.j.len() == 0 ==> rows_written(cx, run, StmtV::Update { table, sets, where_clause: cond, returning: None }, params, 0) == Err::<((int, Option<SelectOutV>), int), StopV>(StopV::Ask(ActionV::FindTable(table))),
        cx.j.len() == 0 ==> rows_written(cx, run, StmtV::Insert { table, columns, source: InsertSourceV::Values(rows), on_conflict: None, returning: None }, params, 0) == Err::<((int, Option<SelectOutV>), int), StopV>(StopV::Ask(ActionV::FindTable(table))),
        cx.j == seq![ReplyV::Table(None), ReplyV::Text(None)] ==> rows_written(cx, run, StmtV::Delete { table, where_clause: cond, returning: None }, params, 0) matches Err(StopV::Fail(_, _)),
        cx.j == seq![ReplyV::Table(None), ReplyV::Text(None)] ==> rows_written(cx, run, StmtV::Update { table, sets, where_clause: cond, returning: None }, params, 0) matches Err(StopV::Fail(_, _)),
        cx.j == seq![ReplyV::Table(None), ReplyV::Text(None)] ==> rows_written(cx, run, StmtV::Insert { table, columns, source: InsertSourceV::Values(rows), on_conflict: None, returning: None }, params, 0) matches Err(StopV::Fail(_, _)),
{
    reveal(rows_written);
    reveal(crate::exec::execute::view_to_change);
}

} // verus!
