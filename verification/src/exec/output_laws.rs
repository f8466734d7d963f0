//! What the output of a SELECT is for: what its columns are called, in which order its rows
//! come, and what DISTINCT, ORDER BY, LIMIT and OFFSET do to the rows that it would give
//! without them.
#[allow(unused_imports)]
use vstd::prelude::*;

#[allow(unused_imports)]
use crate::error::ErrorV;
#[allow(unused_imports)]
use crate::exec::aggregate::{aggregate_items, all_with_aggregates, numbered, with_aggregates};
#[allow(unused_imports)]
use crate::exec::check::{aliased, columns_in, key_expr, name_index, output_index, window_parts, windows_in, windows_in_all};
#[allow(unused_imports)]
use crate::exec::eval::value_of;
#[allow(unused_imports)]
use crate::exec::ops::{branch, sort_order, EnvV};
#[allow(unused_imports)]
use crate::exec::output::{
    group_columns, group_rows, grouped_expr, grouped_output, in_group, names_from, output_keys, output_order, same_column,
    sorted_output, sorted_windowed, star_from, star_names_from, tableless_output, tableless_values, ungrouped, visible_from,
    visible_names_from, window_columns, windowed_output, windowed_row, windowed_rows, windows_from, SelectOutV,
};
#[allow(unused_imports)]
use crate::exec::row_laws::{keeps, keeps_from, lemma_keeps_step, limits_cut_rows, sorted_rows_follow_each_key};
#[allow(unused_imports)]
use crate::exec::rows::{cut, distinct_rows, groups_of, limited, positions, sorted_items, sorting_permutes};
#[allow(unused_imports)]
use crate::exec::schema::{SchemaTableV, SchemaV};
#[allow(unused_imports)]
use crate::exec::select::{
    aggregate_output, compound_output, compound_rows, core_of, row_sort_keys, sort_keys, sorted_rows, Runner,
};
#[allow(unused_imports)]
use crate::exec::source::CteEntryV;
#[allow(unused_imports)]
use crate::exec::window::{all_with_windows, descents, key_records, row_keys, window_index, window_values, with_windows};
#[allow(unused_imports)]
use crate::reals::Order;
#[allow(unused_imports)]
use crate::record::ValueV;
#[allow(unused_imports)]
use crate::sql::ast::{BinOp, ExprV, OrderByV, SelectItemV, SelectStmtV};
#[allow(unused_imports)]
use crate::sql::walk::{expr_size, exprs_size, lemma_parts_size, pair_parts, part_pairs, parts, with_parts};

verus! {

// --- names ---

proof fn lemma_names(items: Seq<SelectItemV>, star: Seq<Seq<char>>, from: int)
    requires
        0 <= from <= items.len(),
        forall|j: int| from <= j < items.len() ==> (#[trigger] items[j]) is Expr,
    ensures
        names_from(items, star, from).len() == items.len() - from,
        forall|j: int|
            from <= j < items.len() ==> names_from(items, star, from)[j - from] == (match (#[trigger] items[j])->alias {
                Some(a) => a,
                None => match items[j]->expr {
                    ExprV::Column { table: _, name } => name,
                    _ => numbered(j),
                },
            }),
    decreases items.len() - from,
{
    if from < items.len() {
        lemma_names(items, star, from + 1);
        let rest = names_from(items, star, from + 1);
        assert forall|j: int| from <= j < items.len() implies names_from(items, star, from)[j - from] == (match (#[trigger] items[j])->alias {
            Some(a) => a,
            None => match items[j]->expr {
                ExprV::Column { table: _, name } => name,
                _ => numbered(j),
            },
        }) by {
            if j > from {
                assert(names_from(items, star, from)[j - from] == rest[j - (from + 1)]);
            }
        }
    }
}

/// An output column is called by its alias; without one, a column keeps its name and every other
/// expression is called by its place. `*` brings the names that it stands for.
pub proof fn columns_are_called(items: Seq<SelectItemV>, star: Seq<Seq<char>>, j: int)
    requires
        forall|i: int| 0 <= i < items.len() ==> (#[trigger] items[i]) is Expr,
        0 <= j < items.len(),
    ensures
        names_from(items, star, 0).len() == items.len(),
        items[j]->alias is Some ==> names_from(items, star, 0)[j] == items[j]->alias->0,
        items[j]->alias is None && items[j]->expr is Column ==> names_from(items, star, 0)[j] == items[j]->expr->Column_name,
        items[j]->alias is None && !(items[j]->expr is Column) ==> names_from(items, star, 0)[j] == numbered(j),
        names_from(seq![SelectItemV::Star], star, 0) == star,
{
    lemma_names(items, star, 0);
    reveal_with_fuel(names_from, 2);
    assert(names_from(seq![SelectItemV::Star], star, 0) =~= star);
}

/// The columns of a table that are not dropped, by their places in the order of the table.
pub open spec fn visible(t: SchemaTableV) -> spec_fn(int) -> bool {
    |j: int| !t.def.columns[t.def.logical_order[j] as int].dropped
}

proof fn lemma_visible(t: SchemaTableV, from: int) -> (at: Seq<int>)
    requires
        0 <= from <= t.def.logical_order.len(),
    ensures
        keeps_from(at, from, t.def.logical_order.len() as int, visible(t)),
        visible_from(t, from) == Seq::new(at.len(), |x: int| t.offset + t.def.logical_order[at[x]] as int),
        visible_names_from(t, from) == Seq::new(at.len(), |x: int| t.def.columns[t.def.logical_order[at[x]] as int].name),
    decreases t.def.logical_order.len() - from,
{
    if from == t.def.logical_order.len() {
        let at = Seq::<int>::empty();
        assert(visible_from(t, from) =~= Seq::new(at.len(), |x: int| t.offset + t.def.logical_order[at[x]] as int));
        assert(visible_names_from(t, from) =~= Seq::new(at.len(), |x: int| t.def.columns[t.def.logical_order[at[x]] as int].name));
        at
    } else {
        let rest = lemma_visible(t, from + 1);
        let at = lemma_keeps_step(rest, from, t.def.logical_order.len() as int, visible(t));
        assert(visible_from(t, from) =~= Seq::new(at.len(), |x: int| t.offset + t.def.logical_order[at[x]] as int));
        assert(visible_names_from(t, from) =~= Seq::new(at.len(), |x: int| t.def.columns[t.def.logical_order[at[x]] as int].name));
        at
    }
}

/// `*` stands for every column of a table that is not dropped, in the order in which the table
/// shows them, each under its name and at its place in the row.
pub proof fn stars_stand_for_what_is_visible(t: SchemaTableV) -> (at: Seq<int>)
    ensures
        keeps(at, t.def.logical_order.len() as int, visible(t)),
        star_from(seq![t], 0).len() == at.len(),
        star_names_from(seq![t], 0).len() == at.len(),
        forall|x: int| 0 <= x < at.len() ==> #[trigger] star_from(seq![t], 0)[x] == t.offset + t.def.logical_order[at[x]],
        forall|x: int| 0 <= x < at.len() ==> #[trigger] star_names_from(seq![t], 0)[x] == t.def.columns[t.def.logical_order[at[x]] as int].name,
{
    reveal_with_fuel(star_from, 2);
    reveal_with_fuel(star_names_from, 2);
    let at = lemma_visible(t, 0);
    assert(star_from(seq![t], 0) =~= visible_from(t, 0));
    assert(star_names_from(seq![t], 0) =~= visible_names_from(t, 0));
    at
}

/// `*` brings the columns of the tables in the order of the tables.
pub proof fn stars_go_through_the_tables(tables: Seq<SchemaTableV>, t: SchemaTableV)
    ensures
        star_from(tables.push(t), 0) == star_from(tables, 0) + star_from(seq![t], 0),
        star_names_from(tables.push(t), 0) == star_names_from(tables, 0) + star_names_from(seq![t], 0),
{
    reveal_with_fuel(star_from, 2);
    reveal_with_fuel(star_names_from, 2);
    assert(star_from(seq![t], 0) =~= visible_from(t, 0));
    assert(star_names_from(seq![t], 0) =~= visible_names_from(t, 0));
    lemma_stars(tables, t, 0);
}

proof fn lemma_stars(tables: Seq<SchemaTableV>, t: SchemaTableV, from: int)
    requires
        0 <= from <= tables.len(),
    ensures
        star_from(tables.push(t), from) == star_from(tables, from) + visible_from(t, 0),
        star_names_from(tables.push(t), from) == star_names_from(tables, from) + visible_names_from(t, 0),
    decreases tables.len() - from,
{
    reveal_with_fuel(star_from, 2);
    reveal_with_fuel(star_names_from, 2);
    if from < tables.len() {
        lemma_stars(tables, t, from + 1);
    }
    assert(star_from(tables.push(t), from) =~= star_from(tables, from) + visible_from(t, 0));
    assert(star_names_from(tables.push(t), from) =~= star_names_from(tables, from) + visible_names_from(t, 0));
}

// --- sort keys ---

proof fn lemma_name_index(names: Seq<Seq<char>>, name: Seq<char>, from: int, i: int)
    requires
        0 <= from <= i < names.len(),
        names[i] == name,
        forall|k: int| from <= k < i ==> #[trigger] names[k] != name,
    ensures
        name_index(names, name, from) == Some(i),
    decreases i - from,
{
    if from < i {
        lemma_name_index(names, name, from + 1, i);
    }
}

/// A sort key over the output is the first output column of that name, or the one at that place,
/// counted from one.
pub proof fn sort_keys_name_output_columns(names: Seq<Seq<char>>, i: int, desc: bool)
    requires
        0 <= i < names.len() <= i64::MAX,
    ensures
        (forall|k: int| 0 <= k < i ==> #[trigger] names[k] != names[i]) ==> output_index((OrderByV { expr: ExprV::Column { table: None, name: names[i] }, desc }), names) == Ok::<int, ErrorV>(i),
        output_index((OrderByV { expr: ExprV::Literal(ValueV::Integer((i + 1) as i64)), desc }), names) == Ok::<int, ErrorV>(i),
        output_index((OrderByV { expr: ExprV::Literal(ValueV::Integer(0)), desc }), names) is Err,
{
    if forall|k: int| 0 <= k < i ==> #[trigger] names[k] != names[i] {
        lemma_name_index(names, names[i], 0, i);
    }
}

proof fn lemma_aliased(items: Seq<SelectItemV>, name: Seq<char>, from: int, i: int)
    requires
        0 <= from <= i < items.len(),
        items[i] is Expr,
        items[i]->alias == Some(name),
        forall|k: int| from <= k < i && (#[trigger] items[k]) is Expr ==> items[k]->alias != Some(name),
    ensures
        aliased(items, name, from) == Some(items[i]->expr),
    decreases i - from,
{
    if from < i {
        lemma_aliased(items, name, from + 1, i);
    }
}

proof fn lemma_not_aliased(items: Seq<SelectItemV>, name: Seq<char>, from: int)
    requires
        0 <= from <= items.len(),
        forall|k: int| from <= k < items.len() && (#[trigger] items[k]) is Expr ==> items[k]->alias != Some(name),
    ensures
        aliased(items, name, from) is None,
    decreases items.len() - from,
{
    if from < items.len() {
        lemma_not_aliased(items, name, from + 1);
    }
}

/// A sort key over the input is the item at that place, counted from one; else the first item with
/// that alias; else the expression itself.
pub proof fn sort_keys_name_items(items: Seq<SelectItemV>, o: OrderByV, i: int)
    requires
        0 <= i < items.len() <= i64::MAX,
        items[i] is Expr,
    ensures
        o.expr == ExprV::Literal(ValueV::Integer((i + 1) as i64)) ==> key_expr(o, items) == Ok::<ExprV, ErrorV>(items[i]->expr),
        o.expr is Column && o.expr->table is None && items[i]->alias == Some(o.expr->Column_name) && (forall|k: int| 0 <= k < i && (#[trigger] items[k]) is Expr ==> items[k]->alias != Some(o.expr->Column_name)) ==> key_expr(o, items) == Ok::<ExprV, ErrorV>(items[i]->expr),
        o.expr is Column && (o.expr->table is Some || forall|k: int| 0 <= k < items.len() && (#[trigger] items[k]) is Expr ==> items[k]->alias != Some(o.expr->Column_name)) ==> key_expr(o, items) == Ok::<ExprV, ErrorV>(o.expr),
        !(o.expr is Column) && !(o.expr is Literal) ==> key_expr(o, items) == Ok::<ExprV, ErrorV>(o.expr),
{
    if o.expr is Column && o.expr->table is None {
        let name = o.expr->Column_name;
        if items[i]->alias == Some(name) && forall|k: int| 0 <= k < i && (#[trigger] items[k]) is Expr ==> items[k]->alias != Some(name) {
            lemma_aliased(items, name, 0, i);
        }
        if forall|k: int| 0 <= k < items.len() && (#[trigger] items[k]) is Expr ==> items[k]->alias != Some(name) {
            lemma_not_aliased(items, name, 0);
        }
    }
}

// --- order ---

/// `at` holds every position below `n` once.
pub open spec fn arranges(at: Seq<usize>, n: nat) -> bool {
    &&& at.len() == n
    &&& forall|t: int| 0 <= t < at.len() ==> 0 <= #[trigger] at[t] < n
    &&& forall|i: usize| i < n ==> #[trigger] at.contains(i)
    &&& forall|t: int, u: int| 0 <= t < u < at.len() ==> #[trigger] at[t] != #[trigger] at[u]
}

/// In the order `at`, keys that agree up to a part ascend in that part, or descend where it is
/// marked so.
pub open spec fn in_order(env: EnvV, keys: Seq<Seq<ValueV>>, descs: Seq<bool>, at: Seq<usize>) -> bool {
    forall|i: int, j: int|
        0 < i < at.len() && 0 <= j < descs.len() && agree(env, keys[at[i] as int], keys[at[i - 1] as int], j) ==> #[trigger] follows(env, keys[at[i - 1] as int], keys[at[i] as int], descs, i, j)
}

pub open spec fn agree(env: EnvV, p: Seq<ValueV>, q: Seq<ValueV>, j: int) -> bool {
    forall|k: int| 0 <= k < j ==> sort_order(env, #[trigger] p[k], q[k]) == Ok::<Order, ErrorV>(Order::Equal)
}

pub open spec fn follows(env: EnvV, p: Seq<ValueV>, q: Seq<ValueV>, descs: Seq<bool>, i: int, j: int) -> bool {
    sort_order(env, q[j], p[j]) != Ok::<Order, ErrorV>(
        if descs[j] {
            Order::Greater
        } else {
            Order::Less
        },
    )
}

proof fn lemma_arranged(env: EnvV, keys: Seq<Seq<ValueV>>, descs: Seq<bool>, n: nat)
    requires
        n <= usize::MAX,
        sorted_items(env, keys, descs, positions(n)) is Ok,
    ensures
        arranges(sorted_items(env, keys, descs, positions(n))->Ok_0, n),
        in_order(env, keys, descs, sorted_items(env, keys, descs, positions(n))->Ok_0),
{
    broadcast use vstd::seq_lib::group_to_multiset_ensures;

    let items = positions(n);
    let at = sorted_items(env, keys, descs, items)->Ok_0;
    sorting_permutes(env, keys, descs, items);
    assert(at.to_multiset() == items.to_multiset());
    assert(at.len() == at.to_multiset().len());
    assert(items.no_duplicates());
    items.lemma_multiset_has_no_duplicates();
    at.lemma_multiset_has_no_duplicates_conv();
    assert forall|t: int| 0 <= t < at.len() implies 0 <= #[trigger] at[t] < n by {
        assert(at.contains(at[t]));
        assert(at.to_multiset().count(at[t]) > 0);
        assert(items.contains(at[t]));
    }
    assert forall|i: usize| i < n implies #[trigger] at.contains(i) by {
        assert(items[i as int] == i);
        assert(items.contains(i));
        assert(items.to_multiset().count(i) > 0);
    }
    assert forall|i: int, j: int| 0 < i < at.len() && 0 <= j < descs.len() && agree(env, keys[at[i] as int], keys[at[i - 1] as int], j) implies #[trigger] follows(env, keys[at[i - 1] as int], keys[at[i] as int], descs, i, j) by {
        sorted_rows_follow_each_key(env, keys, descs, items, i, j);
    }
}

proof fn lemma_order(order_by: Seq<OrderByV>, names: Seq<Seq<char>>, from: int)
    requires
        0 <= from <= order_by.len(),
        output_order(order_by, names, from) is Ok,
    ensures
        output_order(order_by, names, from)->Ok_0.len() == order_by.len() - from,
        forall|j: int| from <= j < order_by.len() ==> output_index(#[trigger] order_by[j], names) == Ok::<int, ErrorV>(output_order(order_by, names, from)->Ok_0[j - from]),
    decreases order_by.len() - from,
{
    if from < order_by.len() {
        lemma_order(order_by, names, from + 1);
        let rest = output_order(order_by, names, from + 1)->Ok_0;
        let all = output_order(order_by, names, from)->Ok_0;
        assert forall|j: int| from <= j < order_by.len() implies output_index(#[trigger] order_by[j], names) == Ok::<int, ErrorV>(all[j - from]) by {
            if j > from {
                assert(all[j - from] == rest[j - (from + 1)]);
            }
        }
    }
}

/// Sorted output rows are the output rows, each once, and where they agree in the columns of the
/// keys before one they ascend in the column of that key, or descend where it is marked DESC.
pub proof fn output_rows_are_sorted(env: EnvV, rows: Seq<Seq<ValueV>>, order_by: Seq<OrderByV>, names: Seq<Seq<char>>) -> (r: (Seq<usize>, Seq<Seq<ValueV>>))
    requires
        rows.len() <= usize::MAX,
        order_by.len() > 0,
        sorted_output(env, rows, order_by, names) is Ok,
    ensures
        arranges(r.0, rows.len()),
        in_order(env, r.1, Seq::new(order_by.len(), |j: int| order_by[j].desc), r.0),
        sorted_output(env, rows, order_by, names)->Ok_0.len() == rows.len(),
        forall|t: int| 0 <= t < rows.len() ==> #[trigger] sorted_output(env, rows, order_by, names)->Ok_0[t] == rows[r.0[t] as int],
        r.1.len() == rows.len(),
        forall|i: int, j: int| 0 <= i < rows.len() && 0 <= j < order_by.len() ==> #[trigger] r.1[i][j] == rows[i][output_index(order_by[j], names)->Ok_0],
{
    let order = output_order(order_by, names, 0)->Ok_0;
    let keys = output_keys(rows, order);
    let at = sorted_items(env, keys, descents(order_by), positions(rows.len()))->Ok_0;
    lemma_arranged(env, keys, descents(order_by), rows.len());
    lemma_order(order_by, names, 0);
    assert(descents(order_by) =~= Seq::new(order_by.len(), |j: int| order_by[j].desc));
    assert forall|i: int, j: int| 0 <= i < rows.len() && 0 <= j < order_by.len() implies #[trigger] keys[i][j] == rows[i][output_index(order_by[j], names)->Ok_0] by {
        assert(output_index(order_by[j], names) == Ok::<int, ErrorV>(order[j - 0]));
    }
    (at, keys)
}

proof fn lemma_row_sort_keys(env: EnvV, stmt: SelectStmtV, s: SchemaV, row: Seq<ValueV>, params: Seq<ValueV>, from: int)
    requires
        0 <= from <= stmt.order_by.len(),
        row_sort_keys(env, stmt, s, row, params, from) is Ok,
    ensures
        row_sort_keys(env, stmt, s, row, params, from)->Ok_0.len() == stmt.order_by.len() - from,
        forall|j: int|
            from <= j < stmt.order_by.len() ==> {
                let e = key_expr(#[trigger] stmt.order_by[j], stmt.projection);
                e is Ok && value_of(branch(env, j), e->Ok_0, Some((s, row)), params) == Ok::<ValueV, ErrorV>(row_sort_keys(env, stmt, s, row, params, from)->Ok_0[j - from])
            },
    decreases stmt.order_by.len() - from,
{
    if from < stmt.order_by.len() {
        lemma_row_sort_keys(env, stmt, s, row, params, from + 1);
        let rest = row_sort_keys(env, stmt, s, row, params, from + 1)->Ok_0;
        let all = row_sort_keys(env, stmt, s, row, params, from)->Ok_0;
        assert forall|j: int| from < j < stmt.order_by.len() implies all[j - from] == #[trigger] rest[j - (from + 1)] by {}
        assert forall|j: int| from <= j < stmt.order_by.len() implies {
            let e = key_expr(#[trigger] stmt.order_by[j], stmt.projection);
            e is Ok && value_of(branch(env, j), e->Ok_0, Some((s, row)), params) == Ok::<ValueV, ErrorV>(all[j - from])
        } by {
            if j > from {
                assert(all[j - from] == rest[j - (from + 1)]);
            }
        }
    }
}

proof fn lemma_sort_keys(env: EnvV, stmt: SelectStmtV, s: SchemaV, rows: Seq<Seq<ValueV>>, params: Seq<ValueV>, from: int)
    requires
        0 <= from <= rows.len(),
        sort_keys(env, stmt, s, rows, params, from) is Ok,
    ensures
        sort_keys(env, stmt, s, rows, params, from)->Ok_0.len() == rows.len() - from,
        forall|i: int| from <= i < rows.len() ==> row_sort_keys(branch(env, i), stmt, s, #[trigger] rows[i], params, 0) == Ok::<Seq<ValueV>, ErrorV>(sort_keys(env, stmt, s, rows, params, from)->Ok_0[i - from]),
    decreases rows.len() - from,
{
    if from < rows.len() {
        lemma_sort_keys(env, stmt, s, rows, params, from + 1);
        let rest = sort_keys(env, stmt, s, rows, params, from + 1)->Ok_0;
        let all = sort_keys(env, stmt, s, rows, params, from)->Ok_0;
        assert forall|i: int| from <= i < rows.len() implies row_sort_keys(branch(env, i), stmt, s, #[trigger] rows[i], params, 0) == Ok::<Seq<ValueV>, ErrorV>(all[i - from]) by {
            if i > from {
                assert(all[i - from] == rest[i - (from + 1)]);
            }
        }
    }
}

/// The rows of a SELECT with ORDER BY are the rows that its condition left, each once, and where
/// they agree in the sort keys before one they ascend in that key, or descend where it is marked
/// DESC. A key has on a row the value of its expression there.
pub proof fn selects_sort_their_rows(env: EnvV, stmt: SelectStmtV, s: SchemaV, rows: Seq<Seq<ValueV>>, params: Seq<ValueV>) -> (r: (Seq<usize>, Seq<Seq<ValueV>>))
    requires
        rows.len() <= usize::MAX,
        stmt.order_by.len() > 0,
        sorted_rows(env, stmt, s, rows, params) is Ok,
    ensures
        arranges(r.0, rows.len()),
        in_order(env, r.1, Seq::new(stmt.order_by.len(), |j: int| stmt.order_by[j].desc), r.0),
        sorted_rows(env, stmt, s, rows, params)->Ok_0.len() == rows.len(),
        forall|t: int| 0 <= t < rows.len() ==> #[trigger] sorted_rows(env, stmt, s, rows, params)->Ok_0[t] == rows[r.0[t] as int],
        r.1.len() == rows.len(),
        forall|i: int, j: int|
            0 <= i < rows.len() && 0 <= j < stmt.order_by.len() ==> value_of(branch(branch(branch(env, 2), i), j), key_expr(stmt.order_by[j], stmt.projection)->Ok_0, Some((s, rows[i])), params) == Ok::<ValueV, ErrorV>(#[trigger] r.1[i][j]),
{
    let keys = sort_keys(branch(env, 2), stmt, s, rows, params, 0)->Ok_0;
    let at = sorted_items(env, keys, descents(stmt.order_by), positions(rows.len()))->Ok_0;
    lemma_arranged(env, keys, descents(stmt.order_by), rows.len());
    lemma_sort_keys(branch(env, 2), stmt, s, rows, params, 0);
    assert(descents(stmt.order_by) =~= Seq::new(stmt.order_by.len(), |j: int| stmt.order_by[j].desc));
    assert forall|i: int, j: int|
        0 <= i < rows.len() && 0 <= j < stmt.order_by.len() implies value_of(branch(branch(branch(env, 2), i), j), key_expr(stmt.order_by[j], stmt.projection)->Ok_0, Some((s, rows[i])), params) == Ok::<ValueV, ErrorV>(#[trigger] keys[i][j]) by {
        let here = branch(branch(env, 2), i);
        assert(row_sort_keys(here, stmt, s, rows[i], params, 0) == Ok::<Seq<ValueV>, ErrorV>(keys[i - 0]));
        lemma_row_sort_keys(here, stmt, s, rows[i], params, 0);
        let o = stmt.order_by[j];
        assert(keys[i][j - 0] == keys[i][j]);
    }
    (at, keys)
}

// --- DISTINCT, ORDER BY, LIMIT and OFFSET together ---

/// The SELECT without its final clauses.
pub open spec fn bare(stmt: SelectStmtV) -> SelectStmtV {
    SelectStmtV { distinct: false, order_by: Seq::empty(), limit: None, offset: None, ..stmt }
}

/// `out` are the rows of `all` after the first `k`, at most `n` of them where there is a limit.
pub open spec fn window_of(out: Seq<Seq<ValueV>>, all: Seq<Seq<ValueV>>, k: int, n: Option<int>) -> bool {
    let left = if k < all.len() {
        all.len() - k
    } else {
        0
    };
    &&& out.len() == (if n is Some && n->0 < left {
        n->0
    } else {
        left
    })
    &&& forall|t: int| 0 <= t < out.len() ==> #[trigger] out[t] == all[k + t]
}

/// OFFSET has the value `k`, or is not written and `k` is 0; LIMIT has the value `n`, or is not
/// written and there is none.
pub open spec fn asks_for(env: EnvV, stmt: SelectStmtV, params: Seq<ValueV>, k: i64, n: Option<i64>) -> bool {
    &&& 0 <= k <= usize::MAX
    &&& match stmt.offset {
        Some(e) => value_of(branch(env, 20), e, None, params) == Ok::<ValueV, ErrorV>(ValueV::Integer(k)),
        None => k == 0,
    }
    &&& match (stmt.limit, n) {
        (Some(e), Some(x)) => 0 <= x <= usize::MAX && value_of(branch(env, 21), e, None, params) == Ok::<ValueV, ErrorV>(ValueV::Integer(x)),
        (None, None) => true,
        _ => false,
    }
}

pub open spec fn opt_int(n: Option<i64>) -> Option<int> {
    match n {
        Some(x) => Some(x as int),
        None => None,
    }
}

proof fn lemma_limited(env: EnvV, rows: Seq<Seq<ValueV>>, stmt: SelectStmtV, params: Seq<ValueV>, k: i64, n: Option<i64>)
    requires
        asks_for(env, stmt, params, k, n),
    ensures
        limited(env, rows, stmt.limit, stmt.offset, params) is Ok,
        window_of(limited(env, rows, stmt.limit, stmt.offset, params)->Ok_0, rows, k as int, opt_int(n)),
        limited(env, rows, None, None, params) == Ok::<Seq<Seq<ValueV>>, ErrorV>(rows),
{
    limits_cut_rows(env, rows, None, None, params, 0, 0);
    let x: i64 = match n {
        Some(x) => x,
        None => 0,
    };
    limits_cut_rows(env, rows, stmt.limit, stmt.offset, params, x, k);
}

/// Of the rows that a SELECT with GROUP BY would give without its final clauses, DISTINCT takes
/// those that repeat away, ORDER BY sorts the rest, and OFFSET and LIMIT cut what is sorted.
pub proof fn grouped_rows_are_finished(env: EnvV, stmt: SelectStmtV, s: SchemaV, rows: Seq<Seq<ValueV>>, params: Seq<ValueV>, base: SelectOutV, sorted: Seq<Seq<ValueV>>, k: i64, n: Option<i64>)
    requires
        grouped_output(env, bare(stmt), s, rows, params) == Ok::<SelectOutV, ErrorV>(base),
        sorted_output(env, if stmt.distinct { distinct_rows(base.rows) } else { base.rows }, stmt.order_by, base.columns) == Ok::<Seq<Seq<ValueV>>, ErrorV>(sorted),
        asks_for(env, stmt, params, k, n),
    ensures
        grouped_output(env, stmt, s, rows, params) is Ok,
        grouped_output(env, stmt, s, rows, params)->Ok_0.columns == base.columns,
        window_of(grouped_output(env, stmt, s, rows, params)->Ok_0.rows, sorted, k as int, opt_int(n)),
{
    lemma_limited(env, base.rows, stmt, params, k, n);
    lemma_limited(env, sorted, stmt, params, k, n);
    let plain = bare(stmt);
    assert(plain.group_by == stmt.group_by);
    let cols = group_columns(stmt.group_by, s, 0);
    assert(cols is Ok);
    let keys = row_keys(branch(env, 0), stmt.group_by, s, rows, params, 0);
    assert(keys is Ok);
    let groups = groups_of(key_records(keys->Ok_0), rows.len());
    let out = group_rows(branch(env, 1), stmt.projection, stmt.having, s, rows, params, groups, 0);
    assert(out is Ok);
    limits_cut_rows(env, out->Ok_0, None, None, params, 0, 0);
    assert(base.rows == out->Ok_0);
}

/// Of the rows that a SELECT with window functions would give without its final clauses, sorted,
/// DISTINCT takes those that repeat away, and OFFSET and LIMIT cut the rest.
pub proof fn windowed_rows_are_finished(env: EnvV, stmt: SelectStmtV, s: SchemaV, rows: Seq<Seq<ValueV>>, params: Seq<ValueV>, base: SelectOutV, sorted: Seq<Seq<ValueV>>, k: i64, n: Option<i64>)
    requires
        windowed_output(env, bare(stmt), s, rows, params) == Ok::<SelectOutV, ErrorV>(base),
        sorted_windowed(env, base.rows, rows, stmt.order_by, base.columns, s) == Ok::<Seq<Seq<ValueV>>, ErrorV>(sorted),
        asks_for(env, stmt, params, k, n),
    ensures
        windowed_output(env, stmt, s, rows, params) is Ok,
        windowed_output(env, stmt, s, rows, params)->Ok_0.columns == base.columns,
        window_of(windowed_output(env, stmt, s, rows, params)->Ok_0.rows, if stmt.distinct { distinct_rows(sorted) } else { sorted }, k as int, opt_int(n)),
{
    let windows = windows_from(stmt.projection, s, 0, Seq::empty())->Ok_0;
    let cols = window_columns(branch(env, 0), windows, s, rows, params, 0)->Ok_0;
    let out = windowed_rows(branch(env, 1), stmt.projection, star_from(s.tables, 0), windows, cols, s, rows, params, 0)->Ok_0;
    limits_cut_rows(env, out, None, None, params, 0, 0);
    assert(base.rows == out);
    lemma_limited(env, if stmt.distinct { distinct_rows(sorted) } else { sorted }, stmt, params, k, n);
}

/// Of the rows that chained SELECTs would give without their final clauses, ORDER BY sorts all,
/// and OFFSET and LIMIT cut what is sorted.
pub proof fn compound_rows_are_finished(env: EnvV, run: Runner, ctes: Seq<CteEntryV>, stmt: SelectStmtV, params: Seq<ValueV>, base: SelectOutV, sorted: Seq<Seq<ValueV>>, k: i64, n: Option<i64>)
    requires
        compound_output(env, run, ctes, SelectStmtV { order_by: Seq::empty(), limit: None, offset: None, ..stmt }, params) == Ok::<SelectOutV, ErrorV>(base),
        sorted_output(env, base.rows, stmt.order_by, base.columns) == Ok::<Seq<Seq<ValueV>>, ErrorV>(sorted),
        asks_for(env, stmt, params, k, n),
    ensures
        compound_output(env, run, ctes, stmt, params) is Ok,
        compound_output(env, run, ctes, stmt, params)->Ok_0.columns == base.columns,
        window_of(compound_output(env, run, ctes, stmt, params)->Ok_0.rows, sorted, k as int, opt_int(n)),
{
    let plain = SelectStmtV { order_by: Seq::empty(), limit: None, offset: None, ..stmt };
    assert(core_of(plain) == core_of(stmt));
    let lead = run(branch(env, 7), ctes, core_of(stmt))->Ok_0;
    let all = compound_rows(branch(env, 8), run, ctes, stmt.compound, lead.columns.len(), lead.rows, 0)->Ok_0;
    limits_cut_rows(env, all, None, None, params, 0, 0);
    assert(base.rows == all);
    lemma_limited(env, sorted, stmt, params, k, n);
}

// --- aggregates without groups ---

proof fn lemma_aggregate_items(env: EnvV, items: Seq<SelectItemV>, s: SchemaV, rows: Seq<Seq<ValueV>>, params: Seq<ValueV>, from: int)
    requires
        0 <= from <= items.len(),
        aggregate_items(env, items, s, rows, params, from) is Ok,
    ensures
        aggregate_items(env, items, s, rows, params, from)->Ok_0.0.len() == items.len() - from,
        aggregate_items(env, items, s, rows, params, from)->Ok_0.1.len() == items.len() - from,
        forall|j: int| from <= j < items.len() ==> aggregated(env, #[trigger] items[j], s, rows, params, j, aggregate_items(env, items, s, rows, params, from)->Ok_0.0[j - from], aggregate_items(env, items, s, rows, params, from)->Ok_0.1[j - from]),
    decreases items.len() - from,
{
    if from < items.len() {
        lemma_aggregate_items(env, items, s, rows, params, from + 1);
        let rest = aggregate_items(env, items, s, rows, params, from + 1)->Ok_0;
        let all = aggregate_items(env, items, s, rows, params, from)->Ok_0;
        assert forall|j: int| from <= j < items.len() implies aggregated(env, #[trigger] items[j], s, rows, params, j, all.0[j - from], all.1[j - from]) by {
            if j > from {
                assert(all.0[j - from] == rest.0[j - (from + 1)]);
                assert(all.1[j - from] == rest.1[j - (from + 1)]);
            }
        }
    }
}

/// Item `j` is an expression, and `v` its value once its aggregates over the rows are known.
pub open spec fn aggregated(env: EnvV, item: SelectItemV, s: SchemaV, rows: Seq<Seq<ValueV>>, params: Seq<ValueV>, j: int, name: Seq<char>, v: ValueV) -> bool {
    &&& item is Expr
    &&& with_aggregates(branch(branch(env, j), 0), item->expr, s, rows, params) is Ok
    &&& value_of(branch(branch(env, j), 1), with_aggregates(branch(branch(env, j), 0), item->expr, s, rows, params)->Ok_0, None, params) == Ok::<ValueV, ErrorV>(v)
    &&& item->alias is Some ==> name == item->alias->0
    &&& item->alias is None ==> name == numbered(j)
}

/// Aggregates without groups give one row with a value for each item, unless HAVING is not true.
pub proof fn aggregates_give_one_row(env: EnvV, stmt: SelectStmtV, s: SchemaV, rows: Seq<Seq<ValueV>>, params: Seq<ValueV>, h: ValueV)
    requires
        aggregate_output(env, stmt, s, rows, params) is Ok,
        stmt.limit is None,
        stmt.offset is None,
        stmt.having is Some ==> {
            let x = with_aggregates(branch(branch(env, 1), 0), stmt.having->0, s, rows, params);
            x is Ok && value_of(branch(branch(env, 1), 1), x->Ok_0, None, params) == Ok::<ValueV, ErrorV>(h)
        },
        h is Bool || h is Null,
    ensures
        ({
            let out = aggregate_output(env, stmt, s, rows, params)->Ok_0;
            &&& out.columns.len() == stmt.projection.len()
            &&& stmt.having is Some && h != ValueV::Bool(true) ==> out.rows.len() == 0
            &&& stmt.having is None || h == ValueV::Bool(true) ==> {
                &&& out.rows.len() == 1
                &&& out.rows[0].len() == stmt.projection.len()
                &&& forall|j: int| 0 <= j < stmt.projection.len() ==> aggregated(branch(env, 0), #[trigger] stmt.projection[j], s, rows, params, j, out.columns[j], out.rows[0][j])
            }
        }),
{
    lemma_aggregate_items(branch(env, 0), stmt.projection, s, rows, params, 0);
    let one = aggregate_items(branch(env, 0), stmt.projection, s, rows, params, 0)->Ok_0;
    limits_cut_rows(env, seq![one.1], None, None, params, 0, 0);
    assert forall|j: int| 0 <= j < stmt.projection.len() implies aggregated(branch(env, 0), #[trigger] stmt.projection[j], s, rows, params, j, one.0[j], one.1[j]) by {
        assert(one.0[j - 0] == one.0[j]);
        assert(one.1[j - 0] == one.1[j]);
    }
}

// --- expressions with parts replaced ---

/// An expression with its own parts put in their places is the same expression.
pub proof fn parts_make_their_expression(e: ExprV)
    ensures
        with_parts(e, parts(e)) == e,
{
    match e {
        ExprV::In { expr, list, negated } => {
            assert((seq![*expr] + list).skip(1) =~= list);
        },
        ExprV::Case { operand, whens, else_ } => {
            let start = if operand is Some {
                1int
            } else {
                0
            };
            lemma_pairs(whens);
            assert(parts(e).subrange(start, start + 2 * whens.len()) =~= pair_parts(whens));
        },
        ExprV::Window { func, args, partition_by, order_by, frame } => {
            assert((args + partition_by).take(args.len() as int) =~= args);
            assert((args + partition_by).skip(args.len() as int) =~= partition_by);
        },
        _ => {},
    }
}

proof fn lemma_pairs(s: Seq<(ExprV, ExprV)>)
    ensures
        pair_parts(s).len() == 2 * s.len(),
        part_pairs(pair_parts(s)) == s,
    decreases s.len(),
{
    if s.len() == 0 {
        assert(part_pairs(pair_parts(s)) =~= s);
    } else {
        let rest = s.drop_first();
        lemma_pairs(rest);
        let all = pair_parts(s);
        assert(all.skip(2) =~= pair_parts(rest));
        assert(part_pairs(all) =~= seq![(s[0].0, s[0].1)] + rest);
        assert(part_pairs(all) =~= s);
    }
}

/// The aggregates in both operands of an operator are replaced, and the operator stays. What is
/// no aggregate and has no parts stays as it is.
pub proof fn aggregates_leave_operators(env: EnvV, a: ExprV, op: BinOp, b: ExprV, fa: ExprV, fb: ExprV, s: SchemaV, rows: Seq<Seq<ValueV>>, params: Seq<ValueV>, v: ValueV, table: Option<Seq<char>>, name: Seq<char>)
    requires
        with_aggregates(branch(env, 2), a, s, rows, params) == Ok::<ExprV, ErrorV>(fa),
        with_aggregates(branch(env, 1), b, s, rows, params) == Ok::<ExprV, ErrorV>(fb),
    ensures
        with_aggregates(env, ExprV::Binary(Box::new(a), op, Box::new(b)), s, rows, params) == Ok::<ExprV, ErrorV>(ExprV::Binary(Box::new(fa), op, Box::new(fb))),
        with_aggregates(env, ExprV::Literal(v), s, rows, params) == Ok::<ExprV, ErrorV>(ExprV::Literal(v)),
        with_aggregates(env, ExprV::Column { table, name }, s, rows, params) == Ok::<ExprV, ErrorV>(ExprV::Column { table, name }),
{
    let two = seq![a, b];
    assert(two.drop_first() =~= seq![b]);
    assert(seq![b].drop_first() =~= Seq::<ExprV>::empty());
    reveal_with_fuel(all_with_aggregates, 3);
    let e = ExprV::Binary(Box::new(a), op, Box::new(b));
    assert(parts(e) == two);
    assert(all_with_aggregates(env, seq![b], s, rows, params)->Ok_0 =~= seq![fb]);
    assert(all_with_aggregates(env, two, s, rows, params)->Ok_0 =~= seq![fa, fb]);
    assert(parts(ExprV::Literal(v)) =~= Seq::<ExprV>::empty());
    assert(parts(ExprV::Column { table, name }) =~= Seq::<ExprV>::empty());
}

// --- windows ---

/// A window on a row has the value of its column there, and an operator keeps the windows of its
/// operands apart.
pub proof fn windows_are_read_from_their_columns(w: ExprV, windows: Seq<ExprV>, cols: Seq<Seq<ValueV>>, at: int, i: int, b: ExprV, op: BinOp)
    requires
        w is Window,
        0 <= at < windows.len(),
        windows[at] == w,
        forall|k: int| 0 <= k < at ==> #[trigger] windows[k] != w,
    ensures
        with_windows(w, windows, cols, i) == ExprV::Literal(cols[at][i]),
        with_windows(ExprV::Binary(Box::new(w), op, Box::new(b)), windows, cols, i) == ExprV::Binary(Box::new(ExprV::Literal(cols[at][i])), op, Box::new(with_windows(b, windows, cols, i))),
        with_windows(ExprV::Binary(Box::new(b), op, Box::new(w)), windows, cols, i) == ExprV::Binary(Box::new(with_windows(b, windows, cols, i)), op, Box::new(ExprV::Literal(cols[at][i]))),
{
    lemma_window_at(windows, w, 0, at);
    reveal_with_fuel(all_with_windows, 3);
    assert(seq![w, b].drop_first() =~= seq![b]);
    assert(seq![b, w].drop_first() =~= seq![w]);
    assert(seq![b].drop_first() =~= Seq::<ExprV>::empty());
    assert(seq![w].drop_first() =~= Seq::<ExprV>::empty());
    assert(all_with_windows(seq![w, b], windows, cols, i) =~= seq![with_windows(w, windows, cols, i), with_windows(b, windows, cols, i)]);
    assert(all_with_windows(seq![b, w], windows, cols, i) =~= seq![with_windows(b, windows, cols, i), with_windows(w, windows, cols, i)]);
}

proof fn lemma_window_at(windows: Seq<ExprV>, w: ExprV, from: int, at: int)
    requires
        0 <= from <= at < windows.len(),
        windows[at] == w,
        forall|k: int| from <= k < at ==> #[trigger] windows[k] != w,
    ensures
        window_index(windows, w, from) == Some(at),
    decreases at - from,
{
    if from < at {
        lemma_window_at(windows, w, from + 1, at);
    }
}

proof fn lemma_window_columns(env: EnvV, windows: Seq<ExprV>, s: SchemaV, rows: Seq<Seq<ValueV>>, params: Seq<ValueV>, from: int)
    requires
        0 <= from <= windows.len(),
        window_columns(env, windows, s, rows, params, from) is Ok,
    ensures
        window_columns(env, windows, s, rows, params, from)->Ok_0.len() == windows.len() - from,
        forall|w: int| from <= w < windows.len() ==> window_values(branch(env, w), #[trigger] windows[w], s, rows, params) == Ok::<Seq<ValueV>, ErrorV>(window_columns(env, windows, s, rows, params, from)->Ok_0[w - from]),
    decreases windows.len() - from,
{
    if from < windows.len() {
        lemma_window_columns(env, windows, s, rows, params, from + 1);
        let rest = window_columns(env, windows, s, rows, params, from + 1)->Ok_0;
        let all = window_columns(env, windows, s, rows, params, from)->Ok_0;
        assert forall|w: int| from <= w < windows.len() implies window_values(branch(env, w), #[trigger] windows[w], s, rows, params) == Ok::<Seq<ValueV>, ErrorV>(all[w - from]) by {
            if w > from {
                assert(all[w - from] == rest[w - (from + 1)]);
            }
        }
    }
}

proof fn lemma_windowed_row(env: EnvV, items: Seq<SelectItemV>, star: Seq<int>, windows: Seq<ExprV>, cols: Seq<Seq<ValueV>>, s: SchemaV, rows: Seq<Seq<ValueV>>, params: Seq<ValueV>, i: int, from: int)
    requires
        0 <= from <= items.len(),
        forall|j: int| from <= j < items.len() ==> (#[trigger] items[j]) is Expr,
        windowed_row(env, items, star, windows, cols, s, rows, params, i, from) is Ok,
    ensures
        windowed_row(env, items, star, windows, cols, s, rows, params, i, from)->Ok_0.len() == items.len() - from,
        forall|j: int|
            from <= j < items.len() ==> value_of(branch(env, j), with_windows((#[trigger] items[j])->expr, windows, cols, i), Some((s, rows[i])), params) == Ok::<ValueV, ErrorV>(windowed_row(env, items, star, windows, cols, s, rows, params, i, from)->Ok_0[j - from]),
    decreases items.len() - from,
{
    if from < items.len() {
        lemma_windowed_row(env, items, star, windows, cols, s, rows, params, i, from + 1);
        let rest = windowed_row(env, items, star, windows, cols, s, rows, params, i, from + 1)->Ok_0;
        let all = windowed_row(env, items, star, windows, cols, s, rows, params, i, from)->Ok_0;
        assert forall|j: int| from <= j < items.len() implies value_of(branch(env, j), with_windows((#[trigger] items[j])->expr, windows, cols, i), Some((s, rows[i])), params) == Ok::<ValueV, ErrorV>(all[j - from]) by {
            if j > from {
                assert(all[j - from] == rest[j - (from + 1)]);
            }
        }
    }
}

proof fn lemma_windowed_rows(env: EnvV, items: Seq<SelectItemV>, star: Seq<int>, windows: Seq<ExprV>, cols: Seq<Seq<ValueV>>, s: SchemaV, rows: Seq<Seq<ValueV>>, params: Seq<ValueV>, from: int)
    requires
        0 <= from <= rows.len(),
        windowed_rows(env, items, star, windows, cols, s, rows, params, from) is Ok,
    ensures
        windowed_rows(env, items, star, windows, cols, s, rows, params, from)->Ok_0.len() == rows.len() - from,
        forall|i: int|
            from <= i < rows.len() ==> windowed_row(#[trigger] branch(env, i), items, star, windows, cols, s, rows, params, i, 0) == Ok::<Seq<ValueV>, ErrorV>(windowed_rows(env, items, star, windows, cols, s, rows, params, from)->Ok_0[i - from]),
    decreases rows.len() - from,
{
    if from < rows.len() {
        lemma_windowed_rows(env, items, star, windows, cols, s, rows, params, from + 1);
        let rest = windowed_rows(env, items, star, windows, cols, s, rows, params, from + 1)->Ok_0;
        let all = windowed_rows(env, items, star, windows, cols, s, rows, params, from)->Ok_0;
        assert forall|i: int| from <= i < rows.len() implies windowed_row(#[trigger] branch(env, i), items, star, windows, cols, s, rows, params, i, 0) == Ok::<Seq<ValueV>, ErrorV>(all[i - from]) by {
            if i > from {
                assert(all[i - from] == rest[i - (from + 1)]);
            }
        }
    }
}

proof fn lemma_windows_stay(items: Seq<SelectItemV>, s: SchemaV, from: int, found: Seq<ExprV>, e: ExprV)
    requires
        0 <= from <= items.len(),
        windows_from(items, s, from, found) is Ok,
        found.contains(e),
    ensures
        windows_from(items, s, from, found)->Ok_0.contains(e),
    decreases items.len() - from,
{
    if from < items.len() {
        match items[from] {
            SelectItemV::Star => lemma_windows_stay(items, s, from + 1, found, e),
            SelectItemV::Expr { expr, alias } => {
                lemma_in_stays(expr, found, e);
                lemma_windows_stay(items, s, from + 1, windows_in(expr, found), e);
            },
        }
    }
}

proof fn lemma_in_stays(x: ExprV, found: Seq<ExprV>, e: ExprV)
    requires
        found.contains(e),
    ensures
        windows_in(x, found).contains(e),
    decreases expr_size(x), 0nat,
{
    if x is Window {
        if !found.contains(x) {
            let k = choose|k: int| 0 <= k < found.len() && found[k] == e;
            assert(found.push(x)[k] == e);
        }
    } else {
        lemma_parts_size(x);
        let ps = window_parts(x);
        assert(exprs_size(Seq::<ExprV>::empty()) == 0);
        lemma_all_in_stays(ps, found, e);
    }
}

proof fn lemma_all_in_stays(es: Seq<ExprV>, found: Seq<ExprV>, e: ExprV)
    requires
        found.contains(e),
    ensures
        windows_in_all(es, found).contains(e),
    decreases exprs_size(es), 1 + es.len(),
{
    if es.len() > 0 {
        lemma_in_stays(es[0], found, e);
        lemma_all_in_stays(es.drop_first(), windows_in(es[0], found), e);
    }
}

proof fn lemma_window_found(items: Seq<SelectItemV>, s: SchemaV, from: int, found: Seq<ExprV>, j: int)
    requires
        0 <= from <= j < items.len(),
        windows_from(items, s, from, found) is Ok,
        items[j] is Expr,
        items[j]->expr is Window,
    ensures
        windows_from(items, s, from, found)->Ok_0.contains(items[j]->expr),
    decreases j - from,
{
    if from < j {
        match items[from] {
            SelectItemV::Star => lemma_window_found(items, s, from + 1, found, j),
            SelectItemV::Expr { expr, alias } => lemma_window_found(items, s, from + 1, windows_in(expr, found), j),
        }
    } else {
        let e = items[j]->expr;
        let next = windows_in(e, found);
        if !found.contains(e) {
            assert(next[found.len() as int] == e);
        }
        assert(next.contains(e));
        lemma_windows_stay(items, s, from + 1, next, e);
    }
}

/// An item that is a window function has on every output row the value of the window on the row
/// that it was made of.
pub proof fn window_items_show_their_cells(env: EnvV, stmt: SelectStmtV, s: SchemaV, rows: Seq<Seq<ValueV>>, params: Seq<ValueV>, j: int) -> (w: int)
    requires
        windowed_output(env, bare(stmt), s, rows, params) is Ok,
        forall|i: int| 0 <= i < stmt.projection.len() ==> (#[trigger] stmt.projection[i]) is Expr,
        0 <= j < stmt.projection.len(),
        stmt.projection[j]->expr is Window,
    ensures
        ({
            let out = windowed_output(env, bare(stmt), s, rows, params)->Ok_0.rows;
            let cells = window_values(branch(branch(env, 0), w), stmt.projection[j]->expr, s, rows, params);
            &&& out.len() == rows.len()
            &&& cells is Ok
            &&& forall|i: int| 0 <= i < rows.len() ==> #[trigger] out[i][j] == cells->Ok_0[i]
        }),
{
    let items = stmt.projection;
    let e = items[j]->expr;
    let star = star_from(s.tables, 0);
    let windows = windows_from(items, s, 0, Seq::empty())->Ok_0;
    let cols = window_columns(branch(env, 0), windows, s, rows, params, 0)->Ok_0;
    let out = windowed_rows(branch(env, 1), items, star, windows, cols, s, rows, params, 0)->Ok_0;
    limits_cut_rows(env, out, None, None, params, 0, 0);
    lemma_window_found(items, s, 0, Seq::empty(), j);
    let some = choose|k: int| 0 <= k < windows.len() && windows[k] == e;
    let w = first_place(windows, e, some);
    lemma_window_at(windows, e, 0, w);
    lemma_window_columns(branch(env, 0), windows, s, rows, params, 0);
    assert(window_values(branch(branch(env, 0), w), windows[w], s, rows, params) == Ok::<Seq<ValueV>, ErrorV>(cols[w - 0]));
    lemma_windowed_rows(branch(env, 1), items, star, windows, cols, s, rows, params, 0);
    assert forall|i: int| 0 <= i < rows.len() implies #[trigger] out[i][j] == cols[w][i] by {
        let here = branch(branch(env, 1), i);
        assert(windowed_row(here, items, star, windows, cols, s, rows, params, i, 0) == Ok::<Seq<ValueV>, ErrorV>(out[i - 0]));
        lemma_windowed_row(here, items, star, windows, cols, s, rows, params, i, 0);
        assert(with_windows(items[j]->expr, windows, cols, i) == ExprV::Literal(cols[w][i]));
        assert(out[i][j - 0] == out[i][j]);
    }
    w
}

proof fn first_place(windows: Seq<ExprV>, e: ExprV, k: int) -> (w: int)
    requires
        0 <= k < windows.len(),
        windows[k] == e,
    ensures
        0 <= w <= k,
        windows[w] == e,
        forall|i: int| 0 <= i < w ==> #[trigger] windows[i] != e,
    decreases k,
{
    if exists|i: int| 0 <= i < k && #[trigger] windows[i] == e {
        let i = choose|i: int| 0 <= i < k && #[trigger] windows[i] == e;
        first_place(windows, e, i)
    } else {
        k
    }
}

// --- what GROUP BY allows ---

proof fn lemma_ungrouped(cols: Seq<(Option<Seq<char>>, Seq<char>)>, cs: Seq<(Option<Seq<char>>, Seq<char>)>, from: int, i: int)
    requires
        0 <= from <= i < cs.len(),
        ungrouped(cols, cs, from) is None,
    ensures
        in_group(cols, cs[i]),
    decreases i - from,
{
    if from < i {
        lemma_ungrouped(cols, cs, from + 1, i);
    }
}

/// Every column that an item of a SELECT with GROUP BY mentions outside aggregates is one of the
/// columns that are grouped by: a column that is not is refused, on its own or as an operand.
pub proof fn columns_must_be_grouped(e: ExprV, s: SchemaV, cols: Seq<(Option<Seq<char>>, Seq<char>)>, i: int, table: Option<Seq<char>>, name: Seq<char>)
    requires
        grouped_expr(e, s, cols) is Ok,
        0 <= i < columns_in(e, true).len(),
    ensures
        exists|g: int| 0 <= g < cols.len() && (#[trigger] cols[g]).1 == columns_in(e, true)[i].1 && (cols[g].0 is None || columns_in(e, true)[i].0 is None || cols[g].0 == columns_in(e, true)[i].0),
        columns_in(ExprV::Column { table, name }, true) == seq![(table, name)],
{
    lemma_ungrouped(cols, columns_in(e, true), 0, i);
    let g = choose|g: int| 0 <= g < cols.len() && same_column(#[trigger] cols[g], columns_in(e, true)[i]);
    assert(cols[g].1 == columns_in(e, true)[i].1);
}

// --- SELECT without FROM ---

proof fn lemma_tableless(env: EnvV, items: Seq<SelectItemV>, params: Seq<ValueV>, from: int)
    requires
        0 <= from <= items.len(),
        tableless_values(env, items, params, from) is Ok,
    ensures
        tableless_values(env, items, params, from)->Ok_0.len() == items.len() - from,
        forall|j: int| from <= j < items.len() ==> (#[trigger] items[j]) is Expr && value_of(branch(env, j), items[j]->expr, None, params) == Ok::<ValueV, ErrorV>(tableless_values(env, items, params, from)->Ok_0[j - from]),
    decreases items.len() - from,
{
    if from < items.len() {
        lemma_tableless(env, items, params, from + 1);
        let rest = tableless_values(env, items, params, from + 1)->Ok_0;
        let all = tableless_values(env, items, params, from)->Ok_0;
        assert forall|j: int| from <= j < items.len() implies (#[trigger] items[j]) is Expr && value_of(branch(env, j), items[j]->expr, None, params) == Ok::<ValueV, ErrorV>(all[j - from]) by {
            if j > from {
                assert(all[j - from] == rest[j - (from + 1)]);
            }
        }
    }
}

/// A SELECT without FROM gives one row with the values of its items, or none where its condition
/// is not true.
pub proof fn selects_without_tables_give_one_row(env: EnvV, stmt: SelectStmtV, params: Seq<ValueV>, c: ValueV)
    requires
        tableless_output(env, stmt, params) is Ok,
        stmt.limit is None,
        stmt.offset is None,
        stmt.where_clause is Some ==> value_of(branch(env, 1), stmt.where_clause->0, None, params) == Ok::<ValueV, ErrorV>(c),
        c is Bool || c is Null,
    ensures
        ({
            let out = tableless_output(env, stmt, params)->Ok_0;
            &&& stmt.where_clause is Some && c != ValueV::Bool(true) ==> out.rows.len() == 0
            &&& stmt.where_clause is None || c == ValueV::Bool(true) ==> {
                &&& out.rows.len() == 1
                &&& out.rows[0].len() == stmt.projection.len()
                &&& forall|j: int| 0 <= j < stmt.projection.len() ==> value_of(branch(branch(env, 3), j), (#[trigger] stmt.projection[j])->expr, None, params) == Ok::<ValueV, ErrorV>(out.rows[0][j])
            }
        }),
{
    if stmt.where_clause is None || c == ValueV::Bool(true) {
        lemma_tableless(branch(env, 3), stmt.projection, params, 0);
        let row = tableless_output(env, stmt, params)->Ok_0.rows[0];
        assert forall|j: int| 0 <= j < stmt.projection.len() implies value_of(branch(branch(env, 3), j), (#[trigger] stmt.projection[j])->expr, None, params) == Ok::<ValueV, ErrorV>(row[j]) by {
            assert(row[j - 0] == row[j]);
        }
    }
}

} // verus!
