//! A SELECT that is streamed gives what it gives when it is run; ORDER BY rearranges what
//! the SELECT gives without it.
use vstd::prelude::*;

#[allow(unused_imports)]
use crate::catalog::TableDefV;
#[allow(unused_imports)]
use crate::error::ErrorV;
#[allow(unused_imports)]
use crate::exec::check::{rank_calls, rank_calls_all, valid_columns};
#[allow(unused_imports)]
use crate::exec::eval::value_of;
#[allow(unused_imports)]
use crate::exec::joins::{one_table, ranked_calls, with_ranks};
#[allow(unused_imports)]
use crate::exec::ops::{branch, EnvV};
#[allow(unused_imports)]
use crate::exec::output::{names_from, rows_at, star_names_from, values_at, SelectOutV};
#[allow(unused_imports)]
use crate::exec::plan::{access, AccessV};
#[allow(unused_imports)]
use crate::exec::rows::{ascending, cut, lemma_placed_at, limited, positions, sorted_items, sorting_ascends, sorting_is_stable, sorting_permutes, stable};
#[allow(unused_imports)]
use crate::exec::schema::{column_named, only_column, resolved, table_named, SchemaV};
#[allow(unused_imports)]
use crate::exec::select::{all_joined, any_aggregate, any_window, found, finder, has_derived, plain_output, projected, projected_row, queried, runner, settled_select, simple_output, sort_keys, sorted_rows, stream_columns, stream_item, stream_plan, tables_of, top_scope, valid_items, FoundV, Runner, StreamSelectV};
#[allow(unused_imports)]
use crate::exec::source::{CteEntryV, DataSource};
#[allow(unused_imports)]
use crate::exec::window::descents;
#[allow(unused_imports)]
use crate::exec::subquery::{any_subquery, item_exprs, select_parts};
#[allow(unused_imports)]
use crate::record::ValueV;
#[allow(unused_imports)]
use crate::sql::ast::{ExprV, SelectItemV, SelectStmtV};
#[allow(unused_imports)]
use crate::sql::walk::{deep_parts, key_exprs, mentions_aggregate, mentions_subquery, mentions_window, parts, qualifier_of};

verus! {

/// What a streamed SELECT gives of the rows of its table.
pub open spec fn streamed(p: StreamSelectV, rows: Seq<Seq<ValueV>>) -> SelectOutV {
    let kept = cut(rows, p.offset as int, Some(p.limit as int));
    SelectOutV { columns: p.columns, rows: Seq::new(kept.len(), |i: int| values_at(kept[i], p.cols)) }
}

proof fn lemma_plain_column(e: ExprV)
    requires
        e is Column,
    ensures
        !mentions_aggregate(e),
        !mentions_window(e),
        !mentions_subquery(e),
        rank_calls(e).len() == 0,
{
    reveal_with_fuel(crate::sql::walk::mentions_aggregate, 2);
    reveal_with_fuel(crate::sql::walk::any_mentions_aggregate, 2);
    reveal_with_fuel(crate::sql::walk::mentions_window, 2);
    reveal_with_fuel(crate::sql::walk::any_mentions_window, 2);
    reveal_with_fuel(crate::sql::walk::mentions_subquery, 2);
    reveal_with_fuel(crate::sql::walk::any_mentions_subquery, 2);
    reveal_with_fuel(crate::exec::check::rank_calls, 2);
    reveal_with_fuel(crate::exec::check::rank_calls_all, 2);
    assert(parts(e).len() == 0);
    assert(deep_parts(e).len() == 0);
}

/// Where the items from `i` on can be streamed, each is a star or a column.
proof fn lemma_stream_items(def: TableDefV, q: Seq<char>, items: Seq<SelectItemV>, i: int, j: int)
    requires
        0 <= i <= j < items.len(),
        stream_columns(def, q, items, i) is Some,
    ensures
        stream_item(def, q, items[j]) is Some,
        items[j] is Expr ==> items[j]->expr is Column,
    decreases j - i,
{
    if i < j {
        lemma_stream_items(def, q, items, i + 1, j);
    }
}

proof fn lemma_item_exprs(items: Seq<SelectItemV>)
    requires
        forall|j: int| 0 <= j < items.len() && (#[trigger] items[j]) is Expr ==> items[j]->expr is Column,
    ensures
        forall|k: int| 0 <= k < item_exprs(items).len() ==> (#[trigger] item_exprs(items)[k]) is Column,
        rank_calls_all(item_exprs(items)).len() == 0,
    decreases items.len(),
{
    reveal_with_fuel(crate::exec::check::rank_calls_all, 2);
    if items.len() > 0 {
        let rest = items.drop_first();
        assert forall|j: int| 0 <= j < rest.len() && (#[trigger] rest[j]) is Expr implies rest[j]->expr is Column by {
            assert(rest[j] == items[j + 1]);
        }
        lemma_item_exprs(rest);
        let all = item_exprs(items);
        if items[0] is Expr {
            assert(all[0] == items[0]->expr);
            assert(all.drop_first() =~= item_exprs(rest));
            lemma_plain_column(all[0]);
            assert forall|k: int| 0 <= k < all.len() implies (#[trigger] all[k]) is Column by {
                if k > 0 {
                    assert(all[k] == item_exprs(rest)[k - 1]);
                }
            }
        }
    }
}

/// A column of the only table means the column of that name.
proof fn lemma_only_table(def: TableDefV, q: Seq<char>, table: Option<Seq<char>>, name: Seq<char>)
    requires
        table is Some ==> table == Some(q),
        column_named(def.columns, name, 0) is Some,
    ensures
        resolved(one_table(q, def), table, name) == Ok::<int, ErrorV>(column_named(def.columns, name, 0)->0),
{
    let s = one_table(q, def);
    let c = column_named(def.columns, name, 0)->0;
    assert(s.tables.len() == 1);
    assert(s.tables[0].qualifier == q && s.tables[0].def == def && s.tables[0].offset == 0);
    assert(table_named(s.tables, q, 0) == Some(0int));
    assert(only_column(s.tables, name, 1, Some((0int, c))) == Ok::<(int, int), ErrorV>((0int, c)));
}

proof fn lemma_stream_row(env: EnvV, run: Runner, ctes: Seq<CteEntryV>, def: TableDefV, q: Seq<char>, items: Seq<SelectItemV>, row: Seq<ValueV>, params: Seq<ValueV>, i: int)
    requires
        0 <= i <= items.len(),
        stream_columns(def, q, items, i) is Some,
    ensures
        valid_items(items, one_table(q, def), i) is Ok,
        names_from(items, star_names_from(one_table(q, def).tables, 0), i) == (stream_columns(def, q, items, i)->0).0,
        projected_row(env, run, ctes, items, one_table(q, def), row, params, i) == Ok::<Seq<ValueV>, ErrorV>(values_at(row, (stream_columns(def, q, items, i)->0).1)),
    decreases items.len() - i,
{
    let s = one_table(q, def);
    if i < items.len() {
        lemma_stream_row(env, run, ctes, def, q, items, row, params, i + 1);
        let own = stream_item(def, q, items[i])->0;
        let rest = stream_columns(def, q, items, i + 1)->0;
        assert(values_at(row, own.1 + rest.1) =~= values_at(row, own.1) + values_at(row, rest.1));
        match items[i] {
            SelectItemV::Star => {},
            SelectItemV::Expr { expr, alias } => {
                match expr {
                    ExprV::Column { table, name } => {
                        lemma_only_table(def, q, table, name);
                        lemma_plain_column(expr);
                        let c = column_named(def.columns, name, 0)->0;
                        assert(value_of(branch(branch(env, i), 1), expr, Some((s, row)), params) == Ok::<ValueV, ErrorV>(row[c]));
                        assert(valid_columns(expr, s) is Ok);
                        assert(values_at(row, own.1) =~= seq![row[c]]);
                    },
                    _ => {},
                }
            },
        }
    } else {
        assert(values_at(row, Seq::<int>::empty()) =~= Seq::empty());
    }
}

proof fn lemma_stream_rows(env: EnvV, run: Runner, ctes: Seq<CteEntryV>, def: TableDefV, q: Seq<char>, items: Seq<SelectItemV>, rows: Seq<Seq<ValueV>>, params: Seq<ValueV>, i: int)
    requires
        0 <= i <= rows.len(),
        stream_columns(def, q, items, 0) is Some,
    ensures
        projected(env, run, ctes, items, one_table(q, def), rows, params, i) == Ok::<Seq<Seq<ValueV>>, ErrorV>(Seq::new((rows.len() - i) as nat, |k: int| values_at(rows[i + k], (stream_columns(def, q, items, 0)->0).1))),
    decreases rows.len() - i,
{
    let cols = (stream_columns(def, q, items, 0)->0).1;
    let want = Seq::new((rows.len() - i) as nat, |k: int| values_at(rows[i + k], cols));
    if i < rows.len() {
        lemma_stream_row(branch(env, i), run, ctes, def, q, items, rows[i], params, 0);
        lemma_stream_rows(env, run, ctes, def, q, items, rows, params, i + 1);
        let rest = Seq::new((rows.len() - (i + 1)) as nat, |k: int| values_at(rows[i + 1 + k], cols));
        assert(seq![values_at(rows[i], cols)] + rest =~= want);
    } else {
        assert(want =~= Seq::empty());
    }
}

/// A SELECT of columns from one table, without a condition, gives what its rows give in
/// order.
#[verifier::spinoff_prover]
#[verifier::rlimit(60)]
proof fn lemma_plain_select<S: DataSource>(src: S, env: EnvV, views: bool, stmt: SelectStmtV, params: Seq<ValueV>, def: TableDefV, rows: Seq<Seq<ValueV>>)
    requires
        stmt.from is Some,
        stmt.from->0.subquery is None,
        stmt.joins.len() == 0,
        stmt.where_clause is None,
        stmt.group_by.len() == 0,
        stmt.having is None,
        stmt.compound.len() == 0,
        stmt.with.len() == 0,
        stmt.order_by.len() == 0 || stmt.limit is None,
        rank_calls_all(key_exprs(stmt.order_by)).len() == 0,
        src.find_table(stmt.from->0.name) == Ok::<Option<TableDefV>, ErrorV>(Some(def)),
        stream_columns(def, qualifier_of(stmt.from->0), stmt.projection, 0) is Some,
        src.all_rows(def) == Ok::<Seq<Seq<ValueV>>, ErrorV>(rows),
    ensures
        queried(src, env, top_scope(views), stmt, params) == plain_output(env, runner(src, top_scope(views), params), top_scope(views).ctes, stmt, one_table(qualifier_of(stmt.from->0), def), rows, params),
{
    let t = stmt.from->0;
    let q = qualifier_of(t);
    let sc = top_scope(views);
    let run = runner(src, sc, params);
    let find = finder(src, env, sc);
    let s = one_table(q, def);
    let items = stmt.projection;
    assert forall|j: int| 0 <= j < items.len() implies stream_item(def, q, #[trigger] items[j]) is Some && (items[j] is Expr ==> items[j]->expr is Column) by {
        lemma_stream_items(def, q, items, 0, j);
    }
    lemma_item_exprs(items);
    assert(tables_of(stmt) =~= seq![t]);
    assert(!has_derived(stmt));
    let ps = select_parts(stmt);
    assert(ps =~= item_exprs(items));
    assert(!any_subquery(ps)) by {
        assert forall|i: int| 0 <= i < ps.len() implies !mentions_subquery(#[trigger] ps[i]) by {
            lemma_plain_column(item_exprs(items)[i]);
        }
    }
    assert(settled_select(branch(env, 4), run, sc.ctes, stmt) == Ok::<SelectStmtV, ErrorV>(stmt));
    assert(found(src, branch(branch(env, 9), 0), sc, t.name) == Ok::<Option<FoundV>, ErrorV>(Some(FoundV { def, rows: None })));
    assert(ranked_calls(stmt).len() == 0);
    assert(with_ranks(src, branch(env, 19), s, ranked_calls(stmt), params, 0) == Ok::<SchemaV, ErrorV>(s));
    assert(access(env, q, def, stmt, params) == Ok::<AccessV, ErrorV>(AccessV::Scan));
    assert(all_joined(src, env, find, stmt, s, rows, params, 0) == Ok::<(SchemaV, Seq<Seq<ValueV>>), ErrorV>((s, rows)));
    assert(!any_aggregate(stmt)) by {
        assert forall|i: int| 0 <= i < items.len() && (#[trigger] items[i]) is Expr implies !mentions_aggregate(items[i]->expr) by {
            lemma_plain_column(items[i]->expr);
        }
    }
    assert(!any_window(stmt)) by {
        assert forall|i: int| 0 <= i < items.len() && (#[trigger] items[i]) is Expr implies !mentions_window(items[i]->expr) by {
            lemma_plain_column(items[i]->expr);
        }
    }
    assert(simple_output(src, env, run, find, sc.ctes, stmt, params) == plain_output(env, run, sc.ctes, stmt, s, rows, params));
}

/// Streaming a SELECT, where it can be streamed, gives the columns and rows that running it
/// gives. The table it reads is named, not a query of its own.
pub proof fn streaming_agrees<S: DataSource>(src: S, env: EnvV, views: bool, stmt: SelectStmtV, params: Seq<ValueV>, p: StreamSelectV, rows: Seq<Seq<ValueV>>)
    requires
        stmt.from is Some,
        stmt.from->0.subquery is None,
        stream_plan(src, env, stmt, params) == Ok::<Option<StreamSelectV>, ErrorV>(Some(p)),
        src.all_rows(p.def) == Ok::<Seq<Seq<ValueV>>, ErrorV>(rows),
        rows.len() <= usize::MAX,
    ensures
        queried(src, env, top_scope(views), stmt, params) == Ok::<SelectOutV, ErrorV>(streamed(p, rows)),
{
    let q = qualifier_of(stmt.from->0);
    let sc = top_scope(views);
    let run = runner(src, sc, params);
    let items = stmt.projection;
    assert(key_exprs(stmt.order_by) =~= Seq::empty());
    assert(rank_calls_all(key_exprs(stmt.order_by)).len() == 0) by {
        reveal_with_fuel(crate::exec::check::rank_calls_all, 1);
    }
    lemma_plain_select(src, env, views, stmt, params, p.def, rows);
    let kept = cut(rows, p.offset as int, Some(p.limit as int));
    let root = branch(env, 3);
    lemma_stream_row(root, run, sc.ctes, p.def, q, items, Seq::empty(), params, 0);
    lemma_stream_rows(root, run, sc.ctes, p.def, q, items, kept, params, 0);
    assert(streamed(p, rows).rows =~= Seq::new(kept.len(), |k: int| values_at(kept[0 + k], p.cols)));
    assert(plain_output(env, run, sc.ctes, stmt, one_table(q, p.def), rows, params) == Ok::<SelectOutV, ErrorV>(streamed(p, rows)));
}

// --- ORDER BY ---

proof fn lemma_sorted_multiset(env: EnvV, keys: Seq<Seq<ValueV>>, descs: Seq<bool>, items: Seq<usize>, rows: Seq<Seq<ValueV>>)
    requires
        sorted_items(env, keys, descs, items) is Ok,
    ensures
        rows_at(rows, sorted_items(env, keys, descs, items)->Ok_0).to_multiset() == rows_at(rows, items).to_multiset(),
    decreases items.len(),
{
    broadcast use vstd::seq_lib::group_to_multiset_ensures;

    if items.len() == 0 {
        assert(items =~= Seq::empty());
    } else {
        let t = items.drop_last();
        let x = items.last();
        lemma_sorted_multiset(env, keys, descs, t, rows);
        let s = sorted_items(env, keys, descs, t)->Ok_0;
        let k = lemma_placed_at(env, keys, descs, s, x);
        let a = rows_at(rows, s.take(k));
        let b = rows_at(rows, s.skip(k));
        assert(rows_at(rows, s) =~= a + b);
        assert(rows_at(rows, s.take(k).push(x) + s.skip(k)) =~= a.push(rows[x as int]) + b);
        assert(rows_at(rows, items) =~= rows_at(rows, t).push(rows[x as int]));
        vstd::seq_lib::lemma_multiset_commutative(a, b);
        vstd::seq_lib::lemma_multiset_commutative(a.push(rows[x as int]), b);
        assert((a.push(rows[x as int]) + b).to_multiset() =~= (a + b).to_multiset().insert(rows[x as int]));
    }
}

proof fn lemma_sorted_positions(env: EnvV, keys: Seq<Seq<ValueV>>, descs: Seq<bool>, n: nat)
    requires
        n <= usize::MAX,
        sorted_items(env, keys, descs, positions(n)) is Ok,
    ensures
        ({
            let at = sorted_items(env, keys, descs, positions(n))->Ok_0;
            &&& at.len() == n
            &&& at.to_multiset() == positions(n).to_multiset()
            &&& ascending(env, keys, descs, at)
            &&& stable(env, keys, descs, at)
            &&& forall|i: int| 0 <= i < n ==> 0 <= #[trigger] at[i] < n
        }),
{
    broadcast use vstd::seq_lib::group_to_multiset_ensures;

    let all = positions(n);
    let at = sorted_items(env, keys, descs, all)->Ok_0;
    sorting_permutes(env, keys, descs, all);
    sorting_ascends(env, keys, descs, all);
    assert forall|i: int, j: int| 0 <= i < j < all.len() implies #[trigger] all[i] < #[trigger] all[j] by {
        assert(all[i] == i && all[j] == j);
    }
    sorting_is_stable(env, keys, descs, all);
    assert(at.to_multiset().len() == at.len());
    assert(all.to_multiset().len() == all.len());
    assert forall|i: int| 0 <= i < n implies 0 <= #[trigger] at[i] < n by {
        assert(at[i] <= all.last());
        assert(all.last() == n - 1);
    }
}

proof fn lemma_ordered_output(env: EnvV, run: Runner, ctes: Seq<CteEntryV>, stmt: SelectStmtV, q: Seq<char>, def: TableDefV, rows: Seq<Seq<ValueV>>, params: Seq<ValueV>)
    requires
        stmt.limit is None,
        stmt.offset is None,
        !stmt.distinct,
        stream_columns(def, q, stmt.projection, 0) is Some,
    ensures
        (match sorted_rows(env, stmt, one_table(q, def), rows, params) {
                Err(e) => plain_output(env, run, ctes, stmt, one_table(q, def), rows, params) == Err::<SelectOutV, ErrorV>(e),
                Ok(sorted) => plain_output(env, run, ctes, stmt, one_table(q, def), rows, params) == Ok::<SelectOutV, ErrorV>(SelectOutV {
                            columns: (stream_columns(def, q, stmt.projection, 0)->0).0,
                            rows: Seq::new(sorted.len(), |k: int| values_at(sorted[k], (stream_columns(def, q, stmt.projection, 0)->0).1)),
                        }),
        }),
{
    let s = one_table(q, def);
    let root = branch(env, 3);
    let items = stmt.projection;
    let cols = (stream_columns(def, q, items, 0)->0).1;
    lemma_stream_row(root, run, ctes, def, q, items, Seq::empty(), params, 0);
    match sorted_rows(env, stmt, s, rows, params) {
        Err(_) => {},
        Ok(sorted) => {
            assert(cut(sorted, 0, None) =~= sorted);
            assert(limited(env, sorted, stmt.limit, stmt.offset, params) == Ok::<Seq<Seq<ValueV>>, ErrorV>(sorted));
            lemma_stream_rows(root, run, ctes, def, q, items, sorted, params, 0);
            assert(Seq::new(sorted.len(), |k: int| values_at(sorted[k], cols)) =~= Seq::new((sorted.len() - 0) as nat, |k: int| values_at(sorted[0 + k], cols)));
        },
    }
}

/// ORDER BY only rearranges: a SELECT of columns from one named table gives with it the rows
/// that it gives without it, in the order `at`. That order ascends by the keys, and rows whose
/// keys are equal keep the order that they have in the table.
#[verifier::spinoff_prover]
#[verifier::rlimit(60)]
pub proof fn order_by_rearranges<S: DataSource>(src: S, env: EnvV, views: bool, stmt: SelectStmtV, params: Seq<ValueV>, p: StreamSelectV, rows: Seq<Seq<ValueV>>) -> (at: Seq<usize>)
    requires
        stmt.from is Some,
        stmt.from->0.subquery is None,
        stmt.order_by.len() > 0,
        stmt.limit is None,
        stmt.offset is None,
        rank_calls_all(key_exprs(stmt.order_by)).len() == 0,
        stream_plan(src, env, unordered(stmt), params) == Ok::<Option<StreamSelectV>, ErrorV>(Some(p)),
        src.all_rows(p.def) == Ok::<Seq<Seq<ValueV>>, ErrorV>(rows),
        rows.len() <= usize::MAX,
        queried(src, env, top_scope(views), stmt, params) is Ok,
    ensures
        ({
            let with = queried(src, env, top_scope(views), stmt, params)->Ok_0;
            let without = queried(src, env, top_scope(views), unordered(stmt), params);
            let keys = sort_keys(branch(env, 2), stmt, one_table(qualifier_of(stmt.from->0), p.def), rows, params, 0);
            &&& without is Ok
            &&& with.columns == without->Ok_0.columns
            &&& with.rows == rows_at(without->Ok_0.rows, at)
            &&& with.rows.to_multiset() == without->Ok_0.rows.to_multiset()
            &&& at.to_multiset() == positions(rows.len()).to_multiset()
            &&& keys is Ok
            &&& ascending(env, keys->Ok_0, descents(stmt.order_by), at)
            &&& stable(env, keys->Ok_0, descents(stmt.order_by), at)
        }),
{
    let q = qualifier_of(stmt.from->0);
    let def = p.def;
    let s = one_table(q, def);
    let sc = top_scope(views);
    let run = runner(src, sc, params);
    let descs = descents(stmt.order_by);
    let all = positions(rows.len());
    streaming_agrees(src, env, views, unordered(stmt), params, p, rows);
    lemma_plain_select(src, env, views, stmt, params, def, rows);
    lemma_ordered_output(env, run, sc.ctes, stmt, q, def, rows, params);
    let keys = sort_keys(branch(env, 2), stmt, s, rows, params, 0)->Ok_0;
    let at = sorted_items(env, keys, descs, all)->Ok_0;
    lemma_sorted_positions(env, keys, descs, rows.len());
    assert(cut(rows, p.offset as int, Some(p.limit as int)) =~= rows);
    let without = streamed(p, rows).rows;
    let with = queried(src, env, top_scope(views), stmt, params)->Ok_0;
    assert(with.rows =~= rows_at(without, at));
    lemma_sorted_multiset(env, keys, descs, all, without);
    assert(rows_at(without, all) =~= without);
    at
}

/// The SELECT without its ORDER BY.
pub open spec fn unordered(stmt: SelectStmtV) -> SelectStmtV {
    SelectStmtV { order_by: Seq::empty(), ..stmt }
}

} // verus!
