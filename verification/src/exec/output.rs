//! Output of a SELECT: names of the columns, groups, windows, and statements without
//! a table.
use vstd::prelude::*;

use crate::error::{gives, sql_err, sql_lit, Error, ErrorV};
#[allow(unused_imports)]
use crate::error::sql_error;
use crate::exec::aggregate::{fold_aggregates, numbered_name};
#[allow(unused_imports)]
use crate::exec::aggregate::{numbered, rows_fit, with_aggregates};
use crate::exec::check::{
    collect_columns, collect_windows, find_name, order_output_index, validate_columns, ColRef, ColRefV,
};
#[allow(unused_imports)]
use crate::exec::check::{
    checked, col_ref_v, col_refs_v, columns_in, name_index, output_index, valid_columns, windows_in,
};
use crate::exec::eval::{eval, eval_const};
#[allow(unused_imports)]
use crate::exec::eval::value_of;
use crate::exec::ops::{truthy, Env, EnvV};
#[allow(unused_imports)]
use crate::exec::ops::branch;
#[allow(unused_imports)]
use crate::exec::ops::truth;
use crate::exec::rows::{
    dedup_preserving, group_positions, limit_bounds, limit_offset, positions_of, sort_items,
};
#[allow(unused_imports)]
use crate::exec::rows::{bounds, distinct_rows, groups_of, groups_ok, groups_v, in_range, keys_fit, limited, opt_expr, lemma_distinct_wide, positions, rows_wide, sorted_items};
#[allow(unused_imports)]
use crate::exec::schema::{def_ok, lemma_laid_out, opt_text, resolved, row_width, SchemaTableV, SchemaV};
use crate::exec::schema::QuerySchema;
use crate::exec::window::{
    compute_window, descents_of, encode_keys, row_keys_of, subst_windows,
};
#[allow(unused_imports)]
use crate::exec::window::{descents, key_records, row_keys, window_values, with_windows};
use crate::record::{clone_row, Value, ValueV};
#[allow(unused_imports)]
use crate::record::{row_view, rows_view};
use crate::sql::ast::{Expr, ExprV, OrderBy, OrderByV, SelectItem, SelectItemV, SelectStmt, SelectStmtV};
#[allow(unused_imports)]
use crate::sql::ast::{exprs_v, order_bys_v, select_items_v};
#[allow(unused_imports)]
use crate::sql::walk::{mentions_aggregate, refs_v};
#[allow(unused_imports)]
use crate::catalog::strings_v;
use crate::text::{cat3, str_eq};

verus! {

/// What a SELECT gives: the names of its columns and its rows.
#[derive(Debug)]
pub struct SelectOut {
    pub columns: Vec<String>,
    pub rows: Vec<Vec<Value>>,
}

#[verifier::ext_equal]
pub ghost struct SelectOutV {
    pub columns: Seq<Seq<char>>,
    pub rows: Seq<Seq<ValueV>>,
}

impl View for SelectOut {
    type V = SelectOutV;

    open spec fn view(&self) -> SelectOutV {
        SelectOutV { columns: strings_v(self.columns@), rows: rows_view(self.rows@) }
    }
}

/// Every row has a value for every column.
pub open spec fn fits(out: SelectOutV) -> bool {
    rows_wide(out.rows, out.columns.len() as int)
}

// --- the columns of * ---

/// The positions of the visible columns of a table in the combined row, in the order
/// in which they are shown, from the `j`-th on.
pub open spec fn visible_from(t: SchemaTableV, j: int) -> Seq<int>
    decreases t.def.logical_order.len() - j,
{
    if j < 0 || j >= t.def.logical_order.len() {
        Seq::empty()
    } else {
        let phys = t.def.logical_order[j] as int;
        if t.def.columns[phys].dropped {
            visible_from(t, j + 1)
        } else {
            seq![t.offset + phys] + visible_from(t, j + 1)
        }
    }
}

/// The names of those columns.
pub open spec fn visible_names_from(t: SchemaTableV, j: int) -> Seq<Seq<char>>
    decreases t.def.logical_order.len() - j,
{
    if j < 0 || j >= t.def.logical_order.len() {
        Seq::empty()
    } else {
        let phys = t.def.logical_order[j] as int;
        if t.def.columns[phys].dropped {
            visible_names_from(t, j + 1)
        } else {
            seq![t.def.columns[phys].name] + visible_names_from(t, j + 1)
        }
    }
}

/// The positions that `*` stands for, from table `i` on.
pub open spec fn star_from(tables: Seq<SchemaTableV>, i: int) -> Seq<int>
    decreases tables.len() - i,
{
    if i < 0 || i >= tables.len() {
        Seq::empty()
    } else {
        visible_from(tables[i], 0) + star_from(tables, i + 1)
    }
}

pub open spec fn star_names_from(tables: Seq<SchemaTableV>, i: int) -> Seq<Seq<char>>
    decreases tables.len() - i,
{
    if i < 0 || i >= tables.len() {
        Seq::empty()
    } else {
        visible_names_from(tables[i], 0) + star_names_from(tables, i + 1)
    }
}

proof fn lemma_visible_len(t: SchemaTableV, j: int)
    ensures
        visible_from(t, j).len() == visible_names_from(t, j).len(),
    decreases t.def.logical_order.len() - j,
{
    if 0 <= j < t.def.logical_order.len() {
        lemma_visible_len(t, j + 1);
    }
}

/// `*` gives as many values as names.
pub proof fn lemma_star_len(tables: Seq<SchemaTableV>, i: int)
    ensures
        star_from(tables, i).len() == star_names_from(tables, i).len(),
    decreases tables.len() - i,
{
    if 0 <= i < tables.len() {
        lemma_visible_len(tables[i], 0);
        lemma_star_len(tables, i + 1);
    }
}

pub open spec fn ints(s: Seq<usize>) -> Seq<int> {
    Seq::new(s.len(), |i: int| s[i] as int)
}

/// The positions and the names of the columns of `*`.
#[verifier::spinoff_prover]
#[verifier::rlimit(60)]
pub fn star_columns(schema: &QuerySchema) -> (r: (Vec<usize>, Vec<String>))
    requires
        schema.wf(),
    ensures
        ints(r.0@) == star_from(schema@.tables, 0),
        strings_v(r.1@) == star_names_from(schema@.tables, 0),
        r.0@.len() == r.1@.len(),
        in_range(r.0@, row_width(schema@.tables) as int),
{
    let mut map: Vec<usize> = Vec::new();
    let mut names: Vec<String> = Vec::new();
    let n: usize = schema.tables.len();
    let ghost tv = schema@.tables;
    let ghost all = star_from(tv, 0);
    let ghost all_names = star_names_from(tv, 0);
    assert(ints(map@) + all =~= all);
    assert(strings_v(names@) + all_names =~= all_names);
    for i in 0..n
        invariant
            n == schema.tables@.len(),
            schema.wf(),
            tv == schema@.tables,
            all == ints(map@) + star_from(tv, i as int),
            all_names == strings_v(names@) + star_names_from(tv, i as int),
            map@.len() == names@.len(),
            in_range(map@, row_width(tv) as int),
    {
        let t = &schema.tables[i];
        let m: usize = t.def.logical_order.len();
        proof {
            assert(tv[i as int] == t@);
            lemma_laid_out(tv, i as int);
            assert(def_ok(schema.tables@[i as int].def@));
        }
        let ghost rest = star_from(tv, i + 1);
        let ghost rest_names = star_names_from(tv, i + 1);
        assert(all =~= ints(map@) + visible_from(t@, 0) + rest);
        assert(all_names =~= strings_v(names@) + visible_names_from(t@, 0) + rest_names);
        for j in 0..m
            invariant
                m == t.def.logical_order@.len(),
                def_ok(t.def@),
                t.offset + t.def.columns@.len() <= row_width(tv) <= usize::MAX,
                all == ints(map@) + visible_from(t@, j as int) + rest,
                all_names == strings_v(names@) + visible_names_from(t@, j as int) + rest_names,
                map@.len() == names@.len(),
                in_range(map@, row_width(tv) as int),
        {
            assert(t.def@.logical_order[j as int] == t.def.logical_order@[j as int]);
            let phys: usize = t.def.logical_order[j];
            assert(t.def@.columns[phys as int] == t.def.columns@[phys as int]@);
            if !t.def.columns[phys].dropped {
                let ghost m0 = ints(map@);
                let ghost n0 = strings_v(names@);
                let ghost mm = map@;
                map.push(t.offset + phys);
                names.push(t.def.columns[phys].name.clone());
                proof {
                    assert(ints(map@) =~= m0.push(t.offset + phys));
                    assert(strings_v(names@) =~= n0.push(t.def.columns@[phys as int].name@));
                    let v = visible_from(t@, j + 1);
                    let w = visible_names_from(t@, j + 1);
                    assert(m0 + (seq![(t.offset + phys) as int] + v) + rest =~= ints(map@) + v + rest);
                    assert(n0 + (seq![t.def.columns@[phys as int].name@] + w) + rest_names
                        =~= strings_v(names@) + w + rest_names);
                    assert forall|k: int| 0 <= k < map@.len() implies 0 <= (#[trigger] map@[k])
                        < row_width(tv) by {
                        if k < mm.len() {
                            assert(map@[k] == mm[k]);
                        }
                    }
                }
            }
        }
        assert(ints(map@) + Seq::<int>::empty() + rest =~= ints(map@) + rest);
        assert(strings_v(names@) + Seq::<Seq<char>>::empty() + rest_names =~= strings_v(names@)
            + rest_names);
    }
    assert(ints(map@) + Seq::<int>::empty() =~= ints(map@));
    assert(strings_v(names@) + Seq::<Seq<char>>::empty() =~= strings_v(names@));
    (map, names)
}

// --- names of the output ---

/// The name of an item: its alias, the name of the column that it is, or a number.
pub open spec fn item_name(expr: ExprV, alias: Option<Seq<char>>, i: int) -> Seq<char> {
    match alias {
        Some(a) => a,
        None => match expr {
            ExprV::Column { table: _, name } => name,
            _ => numbered(i),
        },
    }
}

/// The names of the items from `i` on; `star` are the names of `*`.
pub open spec fn names_from(items: Seq<SelectItemV>, star: Seq<Seq<char>>, i: int) -> Seq<Seq<char>>
    decreases items.len() - i,
{
    if i < 0 || i >= items.len() {
        Seq::empty()
    } else {
        (match items[i] {
            SelectItemV::Star => star,
            SelectItemV::Expr { expr, alias } => seq![item_name(expr, alias, i)],
        }) + names_from(items, star, i + 1)
    }
}

pub fn name_of_item(expr: &Expr, alias: &Option<String>, i: usize) -> (r: String)
    requires
        i < usize::MAX,
    ensures
        r@ == item_name(expr@, opt_text(*alias), i as int),
{
    match alias {
        Some(a) => a.clone(),
        None => match expr {
            Expr::Column { table: _, name } => name.clone(),
            _ => numbered_name(i),
        },
    }
}

pub fn push_strings(out: &mut Vec<String>, src: &Vec<String>)
    ensures
        strings_v(final(out)@) == strings_v(old(out)@) + strings_v(src@),
{
    let n: usize = src.len();
    let ghost sv = strings_v(src@);
    assert(strings_v(out@) =~= strings_v(old(out)@) + sv.take(0));
    for i in 0..n
        invariant
            n == src@.len(),
            sv == strings_v(src@),
            strings_v(out@) == strings_v(old(out)@) + sv.take(i as int),
    {
        let ghost before = strings_v(out@);
        out.push(src[i].clone());
        assert(strings_v(out@) =~= before.push(sv[i as int]));
        assert(sv.take(i + 1) =~= sv.take(i as int).push(sv[i as int]));
    }
    assert(sv.take(n as int) =~= sv);
}

pub fn output_names(items: &Vec<SelectItem>, star: &Vec<String>) -> (r: Vec<String>)
    ensures
        strings_v(r@) == names_from(select_items_v(items@), strings_v(star@), 0),
{
    let mut out: Vec<String> = Vec::new();
    let n: usize = items.len();
    let ghost its = select_items_v(items@);
    let ghost sv = strings_v(star@);
    let ghost all = names_from(its, sv, 0);
    assert(strings_v(out@) + all =~= all);
    for i in 0..n
        invariant
            n == items@.len(),
            its == select_items_v(items@),
            sv == strings_v(star@),
            all == strings_v(out@) + names_from(its, sv, i as int),
    {
        assert(its[i as int] == items@[i as int]@);
        let ghost before = strings_v(out@);
        let ghost rest = names_from(its, sv, i + 1);
        match &items[i] {
            SelectItem::Star => {
                push_strings(&mut out, star);
                assert(before + (sv + rest) =~= strings_v(out@) + rest);
            },
            SelectItem::Expr { expr, alias } => {
                let name = name_of_item(expr, alias, i);
                let ghost nv = name@;
                out.push(name);
                assert(strings_v(out@) =~= before.push(nv));
                assert(before + (seq![nv] + rest) =~= strings_v(out@) + rest);
            },
        }
    }
    assert(strings_v(out@) + Seq::<Seq<char>>::empty() =~= strings_v(out@));
    out
}

// --- rows in another order ---

/// The rows at some positions.
pub open spec fn rows_at(rows: Seq<Seq<ValueV>>, at: Seq<usize>) -> Seq<Seq<ValueV>> {
    Seq::new(at.len(), |i: int| rows[at[i] as int])
}

pub fn pick_rows(rows: &Vec<Vec<Value>>, at: &Vec<usize>) -> (r: Vec<Vec<Value>>)
    requires
        in_range(at@, rows@.len() as int),
    ensures
        rows_view(r@) == rows_at(rows_view(rows@), at@),
        r@.len() == at@.len(),
        forall|i: int| 0 <= i < r@.len() ==> (#[trigger] r@[i])@.len() == rows@[at@[i] as int]@.len(),
{
    let mut out: Vec<Vec<Value>> = Vec::new();
    let n: usize = at.len();
    for i in 0..n
        invariant
            n == at@.len(),
            in_range(at@, rows@.len() as int),
            out@.len() == i,
            forall|k: int|
                0 <= k < i ==> row_view(#[trigger] out@[k]@) == row_view(rows@[at@[k] as int]@)
                    && out@[k]@.len() == rows@[at@[k] as int]@.len(),
    {
        out.push(clone_row(&rows[at[i]]));
    }
    assert(rows_view(out@) =~= rows_at(rows_view(rows@), at@));
    out
}

/// The values of a row at some positions.
pub open spec fn values_at(row: Seq<ValueV>, at: Seq<int>) -> Seq<ValueV> {
    Seq::new(at.len(), |i: int| row[at[i]])
}

pub fn pick_values(row: &Vec<Value>, at: &Vec<usize>) -> (r: Vec<Value>)
    requires
        in_range(at@, row@.len() as int),
    ensures
        row_view(r@) == values_at(row_view(row@), ints(at@)),
        r@.len() == at@.len(),
{
    let mut out: Vec<Value> = Vec::new();
    let n: usize = at.len();
    for i in 0..n
        invariant
            n == at@.len(),
            in_range(at@, row@.len() as int),
            out@.len() == i,
            forall|k: int| 0 <= k < i ==> (#[trigger] out@[k])@ == row@[at@[k] as int]@,
    {
        out.push(row[at[i]].clone());
    }
    assert(row_view(out@) =~= values_at(row_view(row@), ints(at@)));
    out
}

/// The parts of output rows by which they are sorted.
pub open spec fn output_keys(rows: Seq<Seq<ValueV>>, order: Seq<int>) -> Seq<Seq<ValueV>> {
    Seq::new(rows.len(), |i: int| values_at(rows[i], order))
}

/// The output columns that the sort keys from `i` on name.
pub open spec fn output_order(order_by: Seq<OrderByV>, names: Seq<Seq<char>>, i: int) -> Result<
    Seq<int>,
    ErrorV,
>
    decreases order_by.len() - i,
{
    if i < 0 || i >= order_by.len() {
        Ok(Seq::empty())
    } else {
        match output_index(order_by[i], names) {
            Err(e) => Err(e),
            Ok(k) => match output_order(order_by, names, i + 1) {
                Err(e) => Err(e),
                Ok(rest) => Ok(seq![k] + rest),
            },
        }
    }
}

/// Output rows sorted by columns of the output.
pub open spec fn sorted_output(
    env: EnvV,
    rows: Seq<Seq<ValueV>>,
    order_by: Seq<OrderByV>,
    names: Seq<Seq<char>>,
) -> Result<Seq<Seq<ValueV>>, ErrorV> {
    if order_by.len() == 0 {
        Ok(rows)
    } else {
        match output_order(order_by, names, 0) {
            Err(e) => Err(e),
            Ok(order) => match sorted_items(
                env,
                output_keys(rows, order),
                descents(order_by),
                positions(rows.len()),
            ) {
                Err(e) => Err(e),
                Ok(at) => Ok(rows_at(rows, at)),
            },
        }
    }
}

fn output_order_of(order_by: &Vec<OrderBy>, names: &Vec<String>) -> (r: Result<Vec<usize>, Error>)
    ensures
        (match output_order(order_bys_v(order_by@), strings_v(names@), 0) {
            Ok(o) => r is Ok && ints(r->Ok_0@) == o && in_range(r->Ok_0@, names@.len() as int)
                && r->Ok_0@.len() == order_by@.len(),
            Err(e) => r is Err && r->Err_0@ == e,
        }),
{
    let mut out: Vec<usize> = Vec::new();
    let n: usize = order_by.len();
    let ghost ov = order_bys_v(order_by@);
    let ghost nv = strings_v(names@);
    let ghost all = output_order(ov, nv, 0);
    assert(all is Ok ==> ints(out@) + all->Ok_0 =~= all->Ok_0);
    for i in 0..n
        invariant
            n == order_by@.len(),
            ov == order_bys_v(order_by@),
            nv == strings_v(names@),
            all == output_order(ov, nv, 0),
            out@.len() == i,
            in_range(out@, names@.len() as int),
            (match output_order(ov, nv, i as int) {
                Ok(rest) => all == Ok::<Seq<int>, ErrorV>(ints(out@) + rest),
                Err(e) => all == Err::<Seq<int>, ErrorV>(e),
            }),
    {
        assert(ov[i as int] == order_by@[i as int]@);
        let ghost before = ints(out@);
        let ghost o0 = out@;
        match order_output_index(&order_by[i], names) {
            Err(e) => {
                return Err(e);
            },
            Ok(k) => {
                out.push(k);
                proof {
                    assert(ints(out@) =~= before.push(k as int));
                    let rest = output_order(ov, nv, i + 1);
                    if rest is Ok {
                        assert(before + (seq![k as int] + rest->Ok_0) =~= ints(out@) + rest->Ok_0);
                    }
                    assert forall|j: int| 0 <= j < out@.len() implies 0 <= (#[trigger] out@[j])
                        < names@.len() by {
                        if j < o0.len() {
                            assert(out@[j] == o0[j]);
                        }
                    }
                }
            },
        }
    }
    assert(ints(out@) + Seq::<int>::empty() =~= ints(out@));
    Ok(out)
}

pub fn sort_output(env: &Env, rows: Vec<Vec<Value>>, order_by: &Vec<OrderBy>, names: &Vec<String>) -> (r:
    Result<Vec<Vec<Value>>, Error>)
    requires
        forall|i: int| 0 <= i < rows@.len() ==> (#[trigger] rows@[i])@.len() == names@.len(),
    ensures
        (match sorted_output(
            env@,
            rows_view(rows@),
            order_bys_v(order_by@),
            strings_v(names@),
        ) {
            Ok(s) => r is Ok && rows_view(r->Ok_0@) == s && rows_wide(s, names@.len() as int),
            Err(e) => r is Err && r->Err_0@ == e,
        }),
{
    assert(order_bys_v(order_by@).len() == order_by@.len());
    if order_by.len() == 0 {
        return Ok(rows);
    }
    let order = match output_order_of(order_by, names) {
        Err(e) => {
            return Err(e);
        },
        Ok(o) => o,
    };
    let mut keys: Vec<Vec<Value>> = Vec::new();
    let n: usize = rows.len();
    for i in 0..n
        invariant
            n == rows@.len(),
            forall|i: int| 0 <= i < rows@.len() ==> (#[trigger] rows@[i])@.len() == names@.len(),
            in_range(order@, names@.len() as int),
            keys@.len() == i,
            keys_fit(keys@, order@.len() as int),
            forall|k: int|
                0 <= k < i ==> row_view(#[trigger] keys@[k]@) == values_at(
                    row_view(rows@[k]@),
                    ints(order@),
                ),
    {
        keys.push(pick_values(&rows[i], &order));
    }
    assert(rows_view(keys@) =~= output_keys(rows_view(rows@), ints(order@)));
    let descs = descents_of(order_by);
    let all = positions_of(n);
    match sort_items(env, &keys, &descs, &all) {
        Err(e) => Err(e),
        Ok(at) => Ok(pick_rows(&rows, &at)),
    }
}

// --- groups ---

/// The columns that the grouping expressions from `i` on mention.
pub open spec fn group_columns(es: Seq<ExprV>, s: SchemaV, i: int) -> Result<Seq<ColRefV>, ErrorV>
    decreases es.len() - i,
{
    if i < 0 || i >= es.len() {
        Ok(Seq::empty())
    } else {
        match valid_columns(es[i], s) {
            Err(e) => Err(e),
            Ok(_) => match group_columns(es, s, i + 1) {
                Err(e) => Err(e),
                Ok(rest) => Ok(columns_in(es[i], false) + rest),
            },
        }
    }
}

/// A column is one of those that are grouped by; a qualifier that is not written
/// does not tell columns apart.
pub open spec fn same_column(g: ColRefV, c: ColRefV) -> bool {
    g.1 == c.1 && (g.0 is None || c.0 is None || g.0 == c.0)
}

pub open spec fn in_group(cols: Seq<ColRefV>, c: ColRefV) -> bool {
    exists|i: int| 0 <= i < cols.len() && same_column(#[trigger] cols[i], c)
}

/// The first of some columns that is not grouped by.
pub open spec fn ungrouped(cols: Seq<ColRefV>, cs: Seq<ColRefV>, i: int) -> Option<Seq<char>>
    decreases cs.len() - i,
{
    if i < 0 || i >= cs.len() {
        None
    } else if in_group(cols, cs[i]) {
        ungrouped(cols, cs, i + 1)
    } else {
        Some(cs[i].1)
    }
}

/// The columns outside aggregates are grouped by.
pub open spec fn grouped_expr(e: ExprV, s: SchemaV, cols: Seq<ColRefV>) -> Result<(), ErrorV> {
    match valid_columns(e, s) {
        Err(x) => Err(x),
        Ok(_) => match ungrouped(cols, columns_in(e, true), 0) {
            Some(name) => Err(
                sql_error(
                    "la columna "@ + name + " debe ir en GROUP BY o dentro de un agregado"@,
                ),
            ),
            None => Ok(()),
        },
    }
}

pub open spec fn grouped_items(items: Seq<SelectItemV>, s: SchemaV, cols: Seq<ColRefV>, i: int) -> Result<
    (),
    ErrorV,
>
    decreases items.len() - i,
{
    if i < 0 || i >= items.len() {
        Ok(())
    } else {
        match items[i] {
            SelectItemV::Star => Err(sql_error("'*' no se puede combinar con GROUP BY"@)),
            SelectItemV::Expr { expr, alias: _ } => match grouped_expr(expr, s, cols) {
                Err(e) => Err(e),
                Ok(_) => grouped_items(items, s, cols, i + 1),
            },
        }
    }
}

/// The values of the items from `i` on for a group: aggregates over its rows, the
/// rest on its first row.
pub open spec fn group_values(
    env: EnvV,
    items: Seq<SelectItemV>,
    s: SchemaV,
    group: Seq<Seq<ValueV>>,
    params: Seq<ValueV>,
    i: int,
) -> Result<Seq<ValueV>, ErrorV>
    decreases items.len() - i,
{
    if i < 0 || i >= items.len() {
        Ok(Seq::empty())
    } else {
        match items[i] {
            SelectItemV::Star => Err(sql_error("'*' no se puede combinar con GROUP BY"@)),
            SelectItemV::Expr { expr, alias: _ } => match group_value(branch(env, i), expr, s, group, params) {
                Err(e) => Err(e),
                Ok(v) => match group_values(env, items, s, group, params, i + 1) {
                    Err(e) => Err(e),
                    Ok(rest) => Ok(seq![v] + rest),
                },
            },
        }
    }
}

pub open spec fn group_value(
    env: EnvV,
    e: ExprV,
    s: SchemaV,
    group: Seq<Seq<ValueV>>,
    params: Seq<ValueV>,
) -> Result<ValueV, ErrorV> {
    match with_aggregates(branch(env, 0), e, s, group, params) {
        Err(x) => Err(x),
        Ok(f) => value_of(branch(env, 1), f, Some((s, group[0])), params),
    }
}

/// HAVING keeps the group.
pub open spec fn having_holds(
    env: EnvV,
    having: Option<ExprV>,
    s: SchemaV,
    group: Seq<Seq<ValueV>>,
    params: Seq<ValueV>,
) -> Result<bool, ErrorV> {
    match having {
        None => Ok(true),
        Some(h) => match group_value(env, h, s, group, params) {
            Err(e) => Err(e),
            Ok(v) => truth(v),
        },
    }
}

/// One row for each of the groups from `g` on that HAVING keeps.
pub open spec fn group_rows(
    env: EnvV,
    items: Seq<SelectItemV>,
    having: Option<ExprV>,
    s: SchemaV,
    rows: Seq<Seq<ValueV>>,
    params: Seq<ValueV>,
    groups: Seq<Seq<usize>>,
    g: int,
) -> Result<Seq<Seq<ValueV>>, ErrorV>
    decreases groups.len() - g,
{
    if g < 0 || g >= groups.len() {
        Ok(Seq::empty())
    } else {
        let group = rows_at(rows, groups[g]);
        match having_holds(branch(branch(env, g), 0), having, s, group, params) {
            Err(e) => Err(e),
            Ok(false) => group_rows(env, items, having, s, rows, params, groups, g + 1),
            Ok(true) => match group_values(branch(branch(env, g), 1), items, s, group, params, 0) {
                Err(e) => Err(e),
                Ok(row) => match group_rows(
                    env,
                    items,
                    having,
                    s,
                    rows,
                    params,
                    groups,
                    g + 1,
                ) {
                    Err(e) => Err(e),
                    Ok(rest) => Ok(seq![row] + rest),
                },
            },
        }
    }
}

/// A SELECT with GROUP BY on the rows that WHERE left.
pub open spec fn grouped_output(
    env: EnvV,
    stmt: SelectStmtV,
    s: SchemaV,
    rows: Seq<Seq<ValueV>>,
    params: Seq<ValueV>,
) -> Result<SelectOutV, ErrorV> {
    match group_columns(stmt.group_by, s, 0) {
        Err(e) => Err(e),
        Ok(cols) => match grouped_items(stmt.projection, s, cols, 0) {
            Err(e) => Err(e),
            Ok(_) => match (match stmt.having {
                Some(h) => grouped_expr(h, s, cols),
                None => Ok(()),
            }) {
                Err(e) => Err(e),
                Ok(_) => match row_keys(branch(env, 0), stmt.group_by, s, rows, params, 0) {
                    Err(e) => Err(e),
                    Ok(keys) => {
                        let groups = groups_of(key_records(keys), rows.len());
                        let names = names_from(stmt.projection, Seq::empty(), 0);
                        match group_rows(
                            branch(env, 1),
                            stmt.projection,
                            stmt.having,
                            s,
                            rows,
                            params,
                            groups,
                            0,
                        ) {
                            Err(e) => Err(e),
                            Ok(out) => match sorted_output(
                                env,
                                if stmt.distinct {
                                    distinct_rows(out)
                                } else {
                                    out
                                },
                                stmt.order_by,
                                names,
                            ) {
                                Err(e) => Err(e),
                                Ok(sorted) => match limited(
                                    env,
                                    sorted,
                                    stmt.limit,
                                    stmt.offset,
                                    params,
                                ) {
                                    Err(e) => Err(e),
                                    Ok(cut) => Ok(SelectOutV { columns: names, rows: cut }),
                                },
                            },
                        }
                    },
                },
            },
        },
    }
}

fn is_same_column(g: &ColRef, c: &ColRef) -> (r: bool)
    ensures
        r == same_column(col_ref_v(*g), col_ref_v(*c)),
{
    str_eq(g.1.as_str(), c.1.as_str()) && match (&g.0, &c.0) {
        (Some(a), Some(b)) => str_eq(a.as_str(), b.as_str()),
        _ => true,
    }
}

fn group_has(cols: &Vec<ColRef>, c: &ColRef) -> (r: bool)
    ensures
        r == in_group(col_refs_v(cols@), col_ref_v(*c)),
{
    let n: usize = cols.len();
    for i in 0..n
        invariant
            n == cols@.len(),
            forall|k: int|
                0 <= k < i ==> !same_column(#[trigger] col_refs_v(cols@)[k], col_ref_v(*c)),
    {
        assert(col_refs_v(cols@)[i as int] == col_ref_v(cols@[i as int]));
        if is_same_column(&cols[i], c) {
            return true;
        }
    }
    false
}

fn check_grouped(e: &Expr, schema: &QuerySchema, cols: &Vec<ColRef>) -> (r: Result<(), Error>)
    requires
        schema.wf(),
    ensures
        checked(r, grouped_expr(e@, schema@, col_refs_v(cols@))),
{
    match validate_columns(e, schema) {
        Err(x) => {
            return Err(x);
        },
        Ok(_) => {},
    }
    let mut cs: Vec<ColRef> = Vec::new();
    collect_columns(e, true, &mut cs);
    let ghost cv = columns_in(e@, true);
    assert(col_refs_v(cs@) =~= cv);
    let ghost gv = col_refs_v(cols@);
    let n: usize = cs.len();
    for i in 0..n
        invariant
            n == cs@.len(),
            cv == col_refs_v(cs@),
            cv == columns_in(e@, true),
            gv == col_refs_v(cols@),
            valid_columns(e@, schema@) is Ok,
            ungrouped(gv, cv, 0) == ungrouped(gv, cv, i as int),
    {
        assert(cv[i as int] == col_ref_v(cs@[i as int]));
        if !group_has(cols, &cs[i]) {
            return Err(
                sql_err(
                    cat3(
                        "la columna ",
                        cs[i].1.as_str(),
                        " debe ir en GROUP BY o dentro de un agregado",
                    ),
                ),
            );
        }
    }
    Ok(())
}

fn collect_group_columns(es: &Vec<Expr>, schema: &QuerySchema) -> (r: Result<Vec<ColRef>, Error>)
    requires
        schema.wf(),
    ensures
        (match group_columns(exprs_v(es@), schema@, 0) {
            Ok(cs) => r is Ok && col_refs_v(r->Ok_0@) == cs,
            Err(e) => r is Err && r->Err_0@ == e,
        }),
{
    let mut out: Vec<ColRef> = Vec::new();
    let n: usize = es.len();
    let ghost ev = exprs_v(es@);
    let ghost all = group_columns(ev, schema@, 0);
    assert(all is Ok ==> col_refs_v(out@) + all->Ok_0 =~= all->Ok_0);
    for i in 0..n
        invariant
            n == es@.len(),
            schema.wf(),
            ev == exprs_v(es@),
            all == group_columns(ev, schema@, 0),
            (match group_columns(ev, schema@, i as int) {
                Ok(rest) => all == Ok::<Seq<ColRefV>, ErrorV>(col_refs_v(out@) + rest),
                Err(e) => all == Err::<Seq<ColRefV>, ErrorV>(e),
            }),
    {
        assert(ev[i as int] == es@[i as int]@);
        match validate_columns(&es[i], schema) {
            Err(x) => {
                return Err(x);
            },
            Ok(_) => {},
        }
        let ghost before = col_refs_v(out@);
        collect_columns(&es[i], false, &mut out);
        proof {
            let rest = group_columns(ev, schema@, i + 1);
            if rest is Ok {
                assert(before + (columns_in(ev[i as int], false) + rest->Ok_0) =~= col_refs_v(out@)
                    + rest->Ok_0);
            }
        }
    }
    assert(col_refs_v(out@) + Seq::<ColRefV>::empty() =~= col_refs_v(out@));
    Ok(out)
}

fn check_grouped_items(items: &Vec<SelectItem>, schema: &QuerySchema, cols: &Vec<ColRef>) -> (r: Result<
    (),
    Error,
>)
    requires
        schema.wf(),
    ensures
        checked(r, grouped_items(select_items_v(items@), schema@, col_refs_v(cols@), 0)),
        r is Ok ==> forall|i: int| 0 <= i < items@.len() ==> (#[trigger] items@[i]) is Expr,
{
    let n: usize = items.len();
    let ghost its = select_items_v(items@);
    let ghost cv = col_refs_v(cols@);
    for i in 0..n
        invariant
            n == items@.len(),
            schema.wf(),
            its == select_items_v(items@),
            cv == col_refs_v(cols@),
            grouped_items(its, schema@, cv, 0) == grouped_items(its, schema@, cv, i as int),
            forall|k: int| 0 <= k < i ==> (#[trigger] items@[k]) is Expr,
    {
        assert(its[i as int] == items@[i as int]@);
        match &items[i] {
            SelectItem::Star => {
                return Err(sql_lit("'*' no se puede combinar con GROUP BY"));
            },
            SelectItem::Expr { expr, alias: _ } => match check_grouped(expr, schema, cols) {
                Err(x) => {
                    return Err(x);
                },
                Ok(_) => {},
            },
        }
    }
    Ok(())
}

fn eval_group(
    env: &Env,
    e: &Expr,
    schema: &QuerySchema,
    group: &Vec<Vec<Value>>,
    params: &Vec<Value>,
) -> (r: Result<Value, Error>)
    requires
        rows_fit(schema, group@),
        group@.len() > 0,
    ensures
        gives(r, group_value(env@, e@, schema@, rows_view(group@), row_view(params@))),
{
    assert(rows_view(group@)[0] == row_view(group@[0]@));
    match fold_aggregates(&env.branch(0), e, schema, group, params) {
        Err(x) => Err(x),
        Ok(f) => eval(&env.branch(1), &f, Some((schema, &group[0])), params),
    }
}

#[verifier::spinoff_prover]
fn eval_group_items(
    env: &Env,
    items: &Vec<SelectItem>,
    schema: &QuerySchema,
    group: &Vec<Vec<Value>>,
    params: &Vec<Value>,
) -> (r: Result<Vec<Value>, Error>)
    requires
        rows_fit(schema, group@),
        group@.len() > 0,
    ensures
        (match group_values(
            env@,
            select_items_v(items@),
            schema@,
            rows_view(group@),
            row_view(params@),
            0,
        ) {
            Ok(vs) => r is Ok && row_view(r->Ok_0@) == vs && vs.len() == items@.len(),
            Err(e) => r is Err && r->Err_0@ == e,
        }),
{
    let mut out: Vec<Value> = Vec::new();
    let n: usize = items.len();
    let ghost its = select_items_v(items@);
    let ghost gv = rows_view(group@);
    let ghost pv = row_view(params@);
    let ghost sv = schema@;
    let ghost all = group_values(env@, its, sv, gv, pv, 0);
    assert(all is Ok ==> row_view(out@) + all->Ok_0 =~= all->Ok_0);
    for i in 0..n
        invariant
            n == items@.len(),
            rows_fit(schema, group@),
            group@.len() > 0,
            its == select_items_v(items@),
            gv == rows_view(group@),
            pv == row_view(params@),
            sv == schema@,
            all == group_values(env@, its, sv, gv, pv, 0),
            out@.len() == i,
            (match group_values(env@, its, sv, gv, pv, i as int) {
                Ok(rest) => all == Ok::<Seq<ValueV>, ErrorV>(row_view(out@) + rest),
                Err(e) => all == Err::<Seq<ValueV>, ErrorV>(e),
            }),
    {
        assert(its[i as int] == items@[i as int]@);
        let e = match &items[i] {
            SelectItem::Star => {
                return Err(sql_lit("'*' no se puede combinar con GROUP BY"));
            },
            SelectItem::Expr { expr, alias: _ } => expr,
        };
        let v = match eval_group(&env.branch(i), e, schema, group, params) {
            Err(x) => {
                return Err(x);
            },
            Ok(v) => v,
        };
        let ghost before = row_view(out@);
        let ghost vv = v@;
        out.push(v);
        proof {
            assert(row_view(out@) =~= before.push(vv));
            let rest = group_values(env@, its, sv, gv, pv, i + 1);
            if rest is Ok {
                assert(before + (seq![vv] + rest->Ok_0) =~= row_view(out@) + rest->Ok_0);
            }
        }
    }
    assert(row_view(out@) + Seq::<ValueV>::empty() =~= row_view(out@));
    Ok(out)
}

fn having_of(
    env: &Env,
    having: &Option<Expr>,
    schema: &QuerySchema,
    group: &Vec<Vec<Value>>,
    params: &Vec<Value>,
) -> (r: Result<bool, Error>)
    requires
        rows_fit(schema, group@),
        group@.len() > 0,
    ensures
        (match having_holds(env@, opt_expr(*having), schema@, rows_view(group@), row_view(params@)) {
            Ok(b) => r == Ok::<bool, Error>(b),
            Err(e) => r is Err && r->Err_0@ == e,
        }),
{
    match having {
        None => Ok(true),
        Some(h) => match eval_group(env, h, schema, group, params) {
            Err(e) => Err(e),
            Ok(v) => truthy(&v),
        },
    }
}

#[verifier::spinoff_prover]
#[verifier::rlimit(40)]
fn eval_groups(
    env: &Env,
    items: &Vec<SelectItem>,
    having: &Option<Expr>,
    schema: &QuerySchema,
    rows: &Vec<Vec<Value>>,
    params: &Vec<Value>,
    groups: &Vec<Vec<usize>>,
) -> (r: Result<Vec<Vec<Value>>, Error>)
    requires
        rows_fit(schema, rows@),
        groups_ok(groups@, rows@.len() as int),
    ensures
        (match group_rows(
            env@,
            select_items_v(items@),
            opt_expr(*having),
            schema@,
            rows_view(rows@),
            row_view(params@),
            groups_v(groups@),
            0,
        ) {
            Ok(out) => r is Ok && rows_view(r->Ok_0@) == out && (forall|i: int|
                0 <= i < r->Ok_0@.len() ==> (#[trigger] r->Ok_0@[i])@.len() == items@.len()),
            Err(e) => r is Err && r->Err_0@ == e,
        }),
{
    let mut out: Vec<Vec<Value>> = Vec::new();
    let n: usize = groups.len();
    let ghost its = select_items_v(items@);
    let ghost hv = opt_expr(*having);
    let ghost rv = rows_view(rows@);
    let ghost pv = row_view(params@);
    let ghost sv = schema@;
    let ghost gv = groups_v(groups@);
    let ghost all = group_rows(env@, its, hv, sv, rv, pv, gv, 0);
    assert(all is Ok ==> rows_view(out@) + all->Ok_0 =~= all->Ok_0);
    for g in 0..n
        invariant
            n == groups@.len(),
            rows_fit(schema, rows@),
            groups_ok(groups@, rows@.len() as int),
            its == select_items_v(items@),
            hv == opt_expr(*having),
            rv == rows_view(rows@),
            pv == row_view(params@),
            sv == schema@,
            gv == groups_v(groups@),
            all == group_rows(env@, its, hv, sv, rv, pv, gv, 0),
            forall|i: int| 0 <= i < out@.len() ==> (#[trigger] out@[i])@.len() == items@.len(),
            (match group_rows(env@, its, hv, sv, rv, pv, gv, g as int) {
                Ok(rest) => all == Ok::<Seq<Seq<ValueV>>, ErrorV>(rows_view(out@) + rest),
                Err(e) => all == Err::<Seq<Seq<ValueV>>, ErrorV>(e),
            }),
    {
        assert(gv[g as int] == groups@[g as int]@);
        assert(in_range(groups@[g as int]@, rows@.len() as int));
        let group = pick_rows(rows, &groups[g]);
        assert(rows_fit(schema, group@));
        let ghost before = rows_view(out@);
        let ghost rest = group_rows(env@, its, hv, sv, rv, pv, gv, g + 1);
        let here = env.branch(g);
        let keep: bool = match having_of(&here.branch(0), having, schema, &group, params) {
            Err(e) => {
                return Err(e);
            },
            Ok(b) => b,
        };
        if keep {
            let row = match eval_group_items(&here.branch(1), items, schema, &group, params) {
                Err(e) => {
                    return Err(e);
                },
                Ok(row) => row,
            };
            let ghost row_vals = row_view(row@);
            out.push(row);
            proof {
                assert(rows_view(out@) =~= before.push(row_vals));
                if rest is Ok {
                    assert(before + (seq![row_vals] + rest->Ok_0) =~= rows_view(out@) + rest->Ok_0);
                }
            }
        }
    }
    assert(rows_view(out@) + Seq::<Seq<ValueV>>::empty() =~= rows_view(out@));
    Ok(out)
}

proof fn lemma_names_len(items: Seq<SelectItemV>, star: Seq<Seq<char>>, i: int)
    requires
        0 <= i <= items.len(),
        forall|k: int| 0 <= k < items.len() ==> (#[trigger] items[k]) is Expr,
    ensures
        names_from(items, star, i).len() == items.len() - i,
    decreases items.len() - i,
{
    if i < items.len() {
        assert(items[i] is Expr);
        lemma_names_len(items, star, i + 1);
    }
}

/// Drops the rows that equal an earlier one; those left are as wide as before.
fn dedup_rows(rows: Vec<Vec<Value>>, n: usize) -> (r: Vec<Vec<Value>>)
    requires
        forall|i: int| 0 <= i < rows@.len() ==> (#[trigger] rows@[i])@.len() == n,
    ensures
        rows_view(r@) == distinct_rows(rows_view(rows@)),
        forall|i: int| 0 <= i < r@.len() ==> (#[trigger] r@[i])@.len() == n,
{
    proof {
        let rv = rows_view(rows@);
        assert forall|i: int| 0 <= i < rv.len() implies (#[trigger] rv[i]).len() == n by {
            assert(rv[i] == row_view(rows@[i]@));
        }
        lemma_distinct_wide(rv, n as int);
    }
    let out = dedup_preserving(rows);
    assert forall|i: int| 0 <= i < out@.len() implies (#[trigger] out@[i])@.len() == n by {
        assert(rows_view(out@)[i].len() == n);
        assert(rows_view(out@)[i] == row_view(out@[i]@));
    }
    out
}

/// A SELECT with GROUP BY on the rows that WHERE left.
#[verifier::spinoff_prover]
pub fn run_grouped(
    env: &Env,
    stmt: &SelectStmt,
    schema: &QuerySchema,
    rows: &Vec<Vec<Value>>,
    params: &Vec<Value>,
) -> (r: Result<SelectOut, Error>)
    requires
        rows_fit(schema, rows@),
    ensures
        gives(r, grouped_output(env@, stmt@, schema@, rows_view(rows@), row_view(params@))),
        r is Ok ==> fits(r->Ok_0@),
{
    let cols = match collect_group_columns(&stmt.group_by, schema) {
        Err(e) => {
            return Err(e);
        },
        Ok(c) => c,
    };
    match check_grouped_items(&stmt.projection, schema, &cols) {
        Err(e) => {
            return Err(e);
        },
        Ok(_) => {},
    }
    if let Some(h) = &stmt.having {
        match check_grouped(h, schema, &cols) {
            Err(e) => {
                return Err(e);
            },
            Ok(_) => {},
        }
    }
    let keys = match row_keys_of(&env.branch(0), &stmt.group_by, schema, rows, params) {
        Err(e) => {
            return Err(e);
        },
        Ok(k) => k,
    };
    let records = encode_keys(&keys);
    let groups = group_positions(&records);
    assert(keys@.len() == rows@.len());
    let no_star: Vec<String> = Vec::new();
    let names = output_names(&stmt.projection, &no_star);
    assert(strings_v(no_star@) =~= Seq::empty());
    proof {
        let its = select_items_v(stmt.projection@);
        assert forall|k: int| 0 <= k < its.len() implies (#[trigger] its[k]) is Expr by {
            assert(its[k] == stmt.projection@[k]@);
        }
        lemma_names_len(its, Seq::empty(), 0);
        assert(strings_v(names@).len() == names@.len());
    }
    let out = match eval_groups(
        &env.branch(1),
        &stmt.projection,
        &stmt.having,
        schema,
        rows,
        params,
        &groups,
    ) {
        Err(e) => {
            return Err(e);
        },
        Ok(o) => o,
    };
    let out = if stmt.distinct {
        dedup_rows(out, names.len())
    } else {
        out
    };
    let sorted = match sort_output(env, out, &stmt.order_by, &names) {
        Err(e) => {
            return Err(e);
        },
        Ok(o) => o,
    };
    match limit_offset(env, sorted, &stmt.limit, &stmt.offset, params) {
        Err(e) => Err(e),
        Ok(cut) => Ok(SelectOut { columns: names, rows: cut }),
    }
}

// --- windows ---

/// The windows of the items from `i` on, each once, after `found`.
pub open spec fn windows_from(items: Seq<SelectItemV>, s: SchemaV, i: int, found: Seq<ExprV>) -> Result<
    Seq<ExprV>,
    ErrorV,
>
    decreases items.len() - i,
{
    if i < 0 || i >= items.len() {
        Ok(found)
    } else {
        match items[i] {
            SelectItemV::Star => windows_from(items, s, i + 1, found),
            SelectItemV::Expr { expr, alias: _ } => match valid_columns(expr, s) {
                Err(e) => Err(e),
                Ok(_) => windows_from(items, s, i + 1, windows_in(expr, found)),
            },
        }
    }
}

/// The columns of values of the windows from `i` on.
pub open spec fn window_columns(
    env: EnvV,
    windows: Seq<ExprV>,
    s: SchemaV,
    rows: Seq<Seq<ValueV>>,
    params: Seq<ValueV>,
    i: int,
) -> Result<Seq<Seq<ValueV>>, ErrorV>
    decreases windows.len() - i,
{
    if i < 0 || i >= windows.len() {
        Ok(Seq::empty())
    } else {
        match window_values(branch(env, i), windows[i], s, rows, params) {
            Err(e) => Err(e),
            Ok(c) => match window_columns(env, windows, s, rows, params, i + 1) {
                Err(e) => Err(e),
                Ok(rest) => Ok(seq![c] + rest),
            },
        }
    }
}

/// Output row `i`, from item `j` on.
pub open spec fn windowed_row(
    env: EnvV,
    items: Seq<SelectItemV>,
    star: Seq<int>,
    windows: Seq<ExprV>,
    cols: Seq<Seq<ValueV>>,
    s: SchemaV,
    rows: Seq<Seq<ValueV>>,
    params: Seq<ValueV>,
    i: int,
    j: int,
) -> Result<Seq<ValueV>, ErrorV>
    decreases items.len() - j,
{
    if j < 0 || j >= items.len() {
        Ok(Seq::empty())
    } else {
        let first = match items[j] {
            SelectItemV::Star => Ok(values_at(rows[i], star)),
            SelectItemV::Expr { expr, alias: _ } => match value_of(
                branch(env, j),
                with_windows(expr, windows, cols, i),
                Some((s, rows[i])),
                params,
            ) {
                Err(e) => Err(e),
                Ok(v) => Ok(seq![v]),
            },
        };
        match first {
            Err(e) => Err(e),
            Ok(f) => match windowed_row(
                env,
                items,
                star,
                windows,
                cols,
                s,
                rows,
                params,
                i,
                j + 1,
            ) {
                Err(e) => Err(e),
                Ok(rest) => Ok(f + rest),
            },
        }
    }
}

/// The output rows from `i` on.
pub open spec fn windowed_rows(
    env: EnvV,
    items: Seq<SelectItemV>,
    star: Seq<int>,
    windows: Seq<ExprV>,
    cols: Seq<Seq<ValueV>>,
    s: SchemaV,
    rows: Seq<Seq<ValueV>>,
    params: Seq<ValueV>,
    i: int,
) -> Result<Seq<Seq<ValueV>>, ErrorV>
    decreases rows.len() - i,
{
    if i < 0 || i >= rows.len() {
        Ok(Seq::empty())
    } else {
        match windowed_row(branch(env, i), items, star, windows, cols, s, rows, params, i, 0) {
            Err(e) => Err(e),
            Ok(row) => match windowed_rows(
                env,
                items,
                star,
                windows,
                cols,
                s,
                rows,
                params,
                i + 1,
            ) {
                Err(e) => Err(e),
                Ok(rest) => Ok(seq![row] + rest),
            },
        }
    }
}

/// Where a sort key is found: in the output (`true`) or in the row that it was made
/// of.
pub open spec fn key_source(o: OrderByV, names: Seq<Seq<char>>, s: SchemaV) -> Result<
    (bool, int),
    ErrorV,
> {
    match o.expr {
        ExprV::Column { table, name } => if table is None && name_index(names, name, 0) is Some {
            Ok((true, name_index(names, name, 0)->0))
        } else {
            match resolved(s, table, name) {
                Err(e) => Err(e),
                Ok(i) => Ok((false, i)),
            }
        },
        ExprV::Literal(ValueV::Integer(n)) if 1 <= n <= names.len() => Ok((true, n - 1)),
        _ => Err(sql_error("ORDER BY con ventanas solo admite una columna o su posición"@)),
    }
}

pub open spec fn key_sources(order_by: Seq<OrderByV>, names: Seq<Seq<char>>, s: SchemaV, i: int) -> Result<
    Seq<(bool, int)>,
    ErrorV,
>
    decreases order_by.len() - i,
{
    if i < 0 || i >= order_by.len() {
        Ok(Seq::empty())
    } else {
        match key_source(order_by[i], names, s) {
            Err(e) => Err(e),
            Ok(k) => match key_sources(order_by, names, s, i + 1) {
                Err(e) => Err(e),
                Ok(rest) => Ok(seq![k] + rest),
            },
        }
    }
}

pub open spec fn source_keys(
    out: Seq<Seq<ValueV>>,
    rows: Seq<Seq<ValueV>>,
    sources: Seq<(bool, int)>,
) -> Seq<Seq<ValueV>> {
    Seq::new(
        out.len(),
        |i: int|
            Seq::new(
                sources.len(),
                |j: int|
                    if sources[j].0 {
                        out[i][sources[j].1]
                    } else {
                        rows[i][sources[j].1]
                    },
            ),
    )
}

/// Output rows sorted by columns of the output or of the rows they were made of.
pub open spec fn sorted_windowed(
    env: EnvV,
    out: Seq<Seq<ValueV>>,
    rows: Seq<Seq<ValueV>>,
    order_by: Seq<OrderByV>,
    names: Seq<Seq<char>>,
    s: SchemaV,
) -> Result<Seq<Seq<ValueV>>, ErrorV> {
    if order_by.len() == 0 {
        Ok(out)
    } else {
        match key_sources(order_by, names, s, 0) {
            Err(e) => Err(e),
            Ok(sources) => match sorted_items(
                env,
                source_keys(out, rows, sources),
                descents(order_by),
                positions(out.len()),
            ) {
                Err(e) => Err(e),
                Ok(at) => Ok(rows_at(out, at)),
            },
        }
    }
}

/// Without duplicates where DISTINCT asks for it, then cut by OFFSET and LIMIT.
pub open spec fn finished(
    env: EnvV,
    rows: Seq<Seq<ValueV>>,
    stmt: SelectStmtV,
    params: Seq<ValueV>,
) -> Result<Seq<Seq<ValueV>>, ErrorV> {
    limited(
        env,
        if stmt.distinct {
            distinct_rows(rows)
        } else {
            rows
        },
        stmt.limit,
        stmt.offset,
        params,
    )
}

/// A SELECT with window functions on the rows that WHERE left.
pub open spec fn windowed_output(
    env: EnvV,
    stmt: SelectStmtV,
    s: SchemaV,
    rows: Seq<Seq<ValueV>>,
    params: Seq<ValueV>,
) -> Result<SelectOutV, ErrorV> {
    match windows_from(stmt.projection, s, 0, Seq::empty()) {
        Err(e) => Err(e),
        Ok(windows) => match window_columns(branch(env, 0), windows, s, rows, params, 0) {
            Err(e) => Err(e),
            Ok(cols) => {
                let names = names_from(stmt.projection, star_names_from(s.tables, 0), 0);
                match windowed_rows(
                    branch(env, 1),
                    stmt.projection,
                    star_from(s.tables, 0),
                    windows,
                    cols,
                    s,
                    rows,
                    params,
                    0,
                ) {
                    Err(e) => Err(e),
                    Ok(out) => match sorted_windowed(env, out, rows, stmt.order_by, names, s) {
                        Err(e) => Err(e),
                        Ok(sorted) => match finished(env, sorted, stmt, params) {
                            Err(e) => Err(e),
                            Ok(cut) => Ok(SelectOutV { columns: names, rows: cut }),
                        },
                    },
                }
            },
        },
    }
}

fn collect_all_windows<'a>(items: &'a Vec<SelectItem>, schema: &QuerySchema) -> (r: Result<
    Vec<&'a Expr>,
    Error,
>)
    requires
        schema.wf(),
    ensures
        (match windows_from(select_items_v(items@), schema@, 0, Seq::empty()) {
            Ok(ws) => r is Ok && refs_v(r->Ok_0@) == ws && (forall|i: int|
                0 <= i < r->Ok_0@.len() ==> (#[trigger] r->Ok_0@[i]) is Window),
            Err(e) => r is Err && r->Err_0@ == e,
        }),
{
    let mut out: Vec<&Expr> = Vec::new();
    let n: usize = items.len();
    let ghost its = select_items_v(items@);
    let ghost all = windows_from(its, schema@, 0, Seq::empty());
    assert(refs_v(out@) =~= Seq::empty());
    for i in 0..n
        invariant
            n == items@.len(),
            schema.wf(),
            its == select_items_v(items@),
            all == windows_from(its, schema@, 0, Seq::empty()),
            all == windows_from(its, schema@, i as int, refs_v(out@)),
            forall|i: int| 0 <= i < out@.len() ==> (#[trigger] out@[i]) is Window,
    {
        assert(its[i as int] == items@[i as int]@);
        if let SelectItem::Expr { expr, alias: _ } = &items[i] {
            match validate_columns(expr, schema) {
                Err(e) => {
                    return Err(e);
                },
                Ok(_) => {},
            }
            collect_windows(expr, &mut out);
        }
    }
    Ok(out)
}

/// Every column has a value for each of `n` rows.
pub open spec fn columns_fit(cols: Seq<Vec<Value>>, n: int) -> bool {
    forall|i: int| 0 <= i < cols.len() ==> (#[trigger] cols[i])@.len() == n
}

fn compute_windows(
    env: &Env,
    windows: &Vec<&Expr>,
    schema: &QuerySchema,
    rows: &Vec<Vec<Value>>,
    params: &Vec<Value>,
) -> (r: Result<Vec<Vec<Value>>, Error>)
    requires
        rows_fit(schema, rows@),
        forall|i: int| 0 <= i < windows@.len() ==> (#[trigger] windows@[i]) is Window,
    ensures
        (match window_columns(
            env@,
            refs_v(windows@),
            schema@,
            rows_view(rows@),
            row_view(params@),
            0,
        ) {
            Ok(cs) => r is Ok && rows_view(r->Ok_0@) == cs && r->Ok_0@.len() == windows@.len()
                && columns_fit(r->Ok_0@, rows@.len() as int),
            Err(e) => r is Err && r->Err_0@ == e,
        }),
{
    let mut out: Vec<Vec<Value>> = Vec::new();
    let n: usize = windows.len();
    let ghost wv = refs_v(windows@);
    let ghost rv = rows_view(rows@);
    let ghost pv = row_view(params@);
    let ghost sv = schema@;
    let ghost all = window_columns(env@, wv, sv, rv, pv, 0);
    assert(all is Ok ==> rows_view(out@) + all->Ok_0 =~= all->Ok_0);
    for i in 0..n
        invariant
            n == windows@.len(),
            rows_fit(schema, rows@),
            forall|i: int| 0 <= i < windows@.len() ==> (#[trigger] windows@[i]) is Window,
            wv == refs_v(windows@),
            rv == rows_view(rows@),
            pv == row_view(params@),
            sv == schema@,
            all == window_columns(env@, wv, sv, rv, pv, 0),
            out@.len() == i,
            columns_fit(out@, rows@.len() as int),
            (match window_columns(env@, wv, sv, rv, pv, i as int) {
                Ok(rest) => all == Ok::<Seq<Seq<ValueV>>, ErrorV>(rows_view(out@) + rest),
                Err(e) => all == Err::<Seq<Seq<ValueV>>, ErrorV>(e),
            }),
    {
        assert(wv[i as int] == windows@[i as int]@);
        let c = match compute_window(&env.branch(i), windows[i], schema, rows, params) {
            Err(e) => {
                return Err(e);
            },
            Ok(c) => c,
        };
        let ghost before = rows_view(out@);
        let ghost cv = row_view(c@);
        out.push(c);
        proof {
            assert(rows_view(out@) =~= before.push(cv));
            let rest = window_columns(env@, wv, sv, rv, pv, i + 1);
            if rest is Ok {
                assert(before + (seq![cv] + rest->Ok_0) =~= rows_view(out@) + rest->Ok_0);
            }
        }
    }
    assert(rows_view(out@) + Seq::<Seq<ValueV>>::empty() =~= rows_view(out@));
    Ok(out)
}

/// The number of output columns of the items from `i` on.
pub open spec fn output_width(items: Seq<SelectItemV>, star: nat, i: int) -> nat
    decreases items.len() - i,
{
    if i < 0 || i >= items.len() {
        0
    } else {
        (match items[i] {
            SelectItemV::Star => star,
            SelectItemV::Expr { expr: _, alias: _ } => 1,
        }) + output_width(items, star, i + 1)
    }
}

pub proof fn lemma_names_width(items: Seq<SelectItemV>, star: Seq<Seq<char>>, i: int)
    ensures
        names_from(items, star, i).len() == output_width(items, star.len(), i),
    decreases items.len() - i,
{
    if 0 <= i < items.len() {
        lemma_names_width(items, star, i + 1);
    }
}

pub fn push_values(out: &mut Vec<Value>, src: Vec<Value>)
    ensures
        row_view(final(out)@) == row_view(old(out)@) + row_view(src@),
        final(out)@.len() == old(out)@.len() + src@.len(),
{
    let n: usize = src.len();
    let ghost sv = row_view(src@);
    assert(row_view(out@) =~= row_view(old(out)@) + sv.take(0));
    for i in 0..n
        invariant
            n == src@.len(),
            sv == row_view(src@),
            out@.len() == old(out)@.len() + i,
            row_view(out@) == row_view(old(out)@) + sv.take(i as int),
    {
        let ghost before = row_view(out@);
        out.push(src[i].clone());
        assert(row_view(out@) =~= before.push(sv[i as int]));
        assert(sv.take(i + 1) =~= sv.take(i as int).push(sv[i as int]));
    }
    assert(sv.take(n as int) =~= sv);
}

#[verifier::spinoff_prover]
#[verifier::rlimit(40)]
fn window_row(
    env: &Env,
    items: &Vec<SelectItem>,
    star: &Vec<usize>,
    windows: &Vec<&Expr>,
    cols: &Vec<Vec<Value>>,
    schema: &QuerySchema,
    rows: &Vec<Vec<Value>>,
    params: &Vec<Value>,
    i: usize,
) -> (r: Result<Vec<Value>, Error>)
    requires
        rows_fit(schema, rows@),
        i < rows@.len(),
        in_range(star@, row_width(schema@.tables) as int),
        cols@.len() == windows@.len(),
        columns_fit(cols@, rows@.len() as int),
    ensures
        (match windowed_row(
            env@,
            select_items_v(items@),
            ints(star@),
            refs_v(windows@),
            rows_view(cols@),
            schema@,
            rows_view(rows@),
            row_view(params@),
            i as int,
            0,
        ) {
            Ok(row) => r is Ok && row_view(r->Ok_0@) == row && row.len() == output_width(
                select_items_v(items@),
                star@.len(),
                0,
            ),
            Err(e) => r is Err && r->Err_0@ == e,
        }),
{
    let mut out: Vec<Value> = Vec::new();
    let n: usize = items.len();
    let ghost its = select_items_v(items@);
    let ghost st = ints(star@);
    let ghost wv = refs_v(windows@);
    let ghost cv = rows_view(cols@);
    let ghost rv = rows_view(rows@);
    let ghost pv = row_view(params@);
    let ghost sv = schema@;
    let ghost all = windowed_row(env@, its, st, wv, cv, sv, rv, pv, i as int, 0);
    assert(all is Ok ==> row_view(out@) + all->Ok_0 =~= all->Ok_0);
    assert(rv[i as int] == row_view(rows@[i as int]@));
    for j in 0..n
        invariant
            n == items@.len(),
            rows_fit(schema, rows@),
            i < rows@.len(),
            in_range(star@, row_width(schema@.tables) as int),
            cols@.len() == windows@.len(),
            columns_fit(cols@, rows@.len() as int),
            its == select_items_v(items@),
            st == ints(star@),
            wv == refs_v(windows@),
            cv == rows_view(cols@),
            rv == rows_view(rows@),
            rv[i as int] == row_view(rows@[i as int]@),
            pv == row_view(params@),
            sv == schema@,
            all == windowed_row(env@, its, st, wv, cv, sv, rv, pv, i as int, 0),
            out@.len() + output_width(its, star@.len(), j as int) == output_width(
                its,
                star@.len(),
                0,
            ),
            (match windowed_row(env@, its, st, wv, cv, sv, rv, pv, i as int, j as int) {
                Ok(rest) => all == Ok::<Seq<ValueV>, ErrorV>(row_view(out@) + rest),
                Err(e) => all == Err::<Seq<ValueV>, ErrorV>(e),
            }),
    {
        assert(its[j as int] == items@[j as int]@);
        let ghost before = row_view(out@);
        let ghost rest = windowed_row(env@, its, st, wv, cv, sv, rv, pv, i as int, j + 1);
        match &items[j] {
            SelectItem::Star => {
                let vals = pick_values(&rows[i], star);
                let ghost vv = row_view(vals@);
                push_values(&mut out, vals);
                proof {
                    if rest is Ok {
                        assert(before + (vv + rest->Ok_0) =~= row_view(out@) + rest->Ok_0);
                    }
                }
            },
            SelectItem::Expr { expr, alias: _ } => {
                let e = subst_windows(expr, windows, cols, i);
                match eval(&env.branch(j), &e, Some((schema, &rows[i])), params) {
                    Err(x) => {
                        return Err(x);
                    },
                    Ok(v) => {
                        let ghost vv = v@;
                        out.push(v);
                        proof {
                            assert(row_view(out@) =~= before.push(vv));
                            if rest is Ok {
                                assert(before + (seq![vv] + rest->Ok_0) =~= row_view(out@)
                                    + rest->Ok_0);
                            }
                        }
                    },
                }
            },
        }
    }
    assert(row_view(out@) + Seq::<ValueV>::empty() =~= row_view(out@));
    Ok(out)
}

#[verifier::spinoff_prover]
fn window_rows(
    env: &Env,
    items: &Vec<SelectItem>,
    star: &Vec<usize>,
    windows: &Vec<&Expr>,
    cols: &Vec<Vec<Value>>,
    schema: &QuerySchema,
    rows: &Vec<Vec<Value>>,
    params: &Vec<Value>,
) -> (r: Result<Vec<Vec<Value>>, Error>)
    requires
        rows_fit(schema, rows@),
        in_range(star@, row_width(schema@.tables) as int),
        cols@.len() == windows@.len(),
        columns_fit(cols@, rows@.len() as int),
    ensures
        (match windowed_rows(
            env@,
            select_items_v(items@),
            ints(star@),
            refs_v(windows@),
            rows_view(cols@),
            schema@,
            rows_view(rows@),
            row_view(params@),
            0,
        ) {
            Ok(out) => r is Ok && rows_view(r->Ok_0@) == out && out.len() == rows@.len() && (
            forall|k: int|
                0 <= k < r->Ok_0@.len() ==> (#[trigger] r->Ok_0@[k])@.len() == output_width(
                    select_items_v(items@),
                    star@.len(),
                    0,
                )),
            Err(e) => r is Err && r->Err_0@ == e,
        }),
{
    let mut out: Vec<Vec<Value>> = Vec::new();
    let n: usize = rows.len();
    let ghost its = select_items_v(items@);
    let ghost st = ints(star@);
    let ghost wv = refs_v(windows@);
    let ghost cv = rows_view(cols@);
    let ghost rv = rows_view(rows@);
    let ghost pv = row_view(params@);
    let ghost sv = schema@;
    let ghost all = windowed_rows(env@, its, st, wv, cv, sv, rv, pv, 0);
    assert(all is Ok ==> rows_view(out@) + all->Ok_0 =~= all->Ok_0);
    for i in 0..n
        invariant
            n == rows@.len(),
            rows_fit(schema, rows@),
            in_range(star@, row_width(schema@.tables) as int),
            cols@.len() == windows@.len(),
            columns_fit(cols@, rows@.len() as int),
            its == select_items_v(items@),
            st == ints(star@),
            wv == refs_v(windows@),
            cv == rows_view(cols@),
            rv == rows_view(rows@),
            pv == row_view(params@),
            sv == schema@,
            all == windowed_rows(env@, its, st, wv, cv, sv, rv, pv, 0),
            out@.len() == i,
            forall|k: int|
                0 <= k < out@.len() ==> (#[trigger] out@[k])@.len() == output_width(
                    its,
                    star@.len(),
                    0,
                ),
            (match windowed_rows(env@, its, st, wv, cv, sv, rv, pv, i as int) {
                Ok(rest) => all == Ok::<Seq<Seq<ValueV>>, ErrorV>(rows_view(out@) + rest),
                Err(e) => all == Err::<Seq<Seq<ValueV>>, ErrorV>(e),
            }),
    {
        let row = match window_row(&env.branch(i), items, star, windows, cols, schema, rows, params, i) {
            Err(e) => {
                return Err(e);
            },
            Ok(row) => row,
        };
        let ghost before = rows_view(out@);
        let ghost row_vals = row_view(row@);
        out.push(row);
        proof {
            assert(rows_view(out@) =~= before.push(row_vals));
            let rest = windowed_rows(env@, its, st, wv, cv, sv, rv, pv, i + 1);
            if rest is Ok {
                assert(before + (seq![row_vals] + rest->Ok_0) =~= rows_view(out@) + rest->Ok_0);
            }
        }
    }
    assert(rows_view(out@) + Seq::<Seq<ValueV>>::empty() =~= rows_view(out@));
    Ok(out)
}

fn find_source(o: &OrderBy, names: &Vec<String>, schema: &QuerySchema) -> (r: Result<
    (bool, usize),
    Error,
>)
    requires
        schema.wf(),
    ensures
        (match key_source(o@, strings_v(names@), schema@) {
            Ok((w, i)) => r is Ok && (r->Ok_0).0 == w && (r->Ok_0).1 == i && 0 <= i && (if w {
                i < names@.len()
            } else {
                i < row_width(schema@.tables)
            }),
            Err(e) => r is Err && r->Err_0@ == e,
        }),
{
    match &o.expr {
        Expr::Column { table, name } => {
            if table.is_none() {
                if let Some(i) = find_name(names, name.as_str()) {
                    return Ok((true, i));
                }
            }
            match schema.resolve(table, name.as_str()) {
                Err(e) => Err(e),
                Ok(i) => Ok((false, i)),
            }
        },
        Expr::Literal(Value::Integer(n)) if *n >= 1 && *n as u64 <= names.len() as u64 => Ok(
            (true, *n as usize - 1),
        ),
        _ => Err(sql_lit("ORDER BY con ventanas solo admite una columna o su posición")),
    }
}

pub open spec fn sources_v(s: Seq<(bool, usize)>) -> Seq<(bool, int)> {
    Seq::new(s.len(), |i: int| (s[i].0, s[i].1 as int))
}

/// Every source is a column of the output, or of the row, which have `w` and `n`.
pub open spec fn sources_ok(s: Seq<(bool, usize)>, w: int, n: int) -> bool {
    forall|i: int|
        0 <= i < s.len() ==> 0 <= (#[trigger] s[i]).1 && s[i].1 < (if s[i].0 {
            w
        } else {
            n
        })
}

fn find_sources(order_by: &Vec<OrderBy>, names: &Vec<String>, schema: &QuerySchema) -> (r: Result<
    Vec<(bool, usize)>,
    Error,
>)
    requires
        schema.wf(),
    ensures
        (match key_sources(order_bys_v(order_by@), strings_v(names@), schema@, 0) {
            Ok(ss) => r is Ok && sources_v(r->Ok_0@) == ss && sources_ok(
                r->Ok_0@,
                names@.len() as int,
                row_width(schema@.tables) as int,
            ) && r->Ok_0@.len() == order_by@.len(),
            Err(e) => r is Err && r->Err_0@ == e,
        }),
{
    let mut out: Vec<(bool, usize)> = Vec::new();
    let n: usize = order_by.len();
    let ghost ov = order_bys_v(order_by@);
    let ghost nv = strings_v(names@);
    let ghost all = key_sources(ov, nv, schema@, 0);
    assert(all is Ok ==> sources_v(out@) + all->Ok_0 =~= all->Ok_0);
    for i in 0..n
        invariant
            n == order_by@.len(),
            schema.wf(),
            ov == order_bys_v(order_by@),
            nv == strings_v(names@),
            all == key_sources(ov, nv, schema@, 0),
            out@.len() == i,
            sources_ok(out@, names@.len() as int, row_width(schema@.tables) as int),
            (match key_sources(ov, nv, schema@, i as int) {
                Ok(rest) => all == Ok::<Seq<(bool, int)>, ErrorV>(sources_v(out@) + rest),
                Err(e) => all == Err::<Seq<(bool, int)>, ErrorV>(e),
            }),
    {
        assert(ov[i as int] == order_by@[i as int]@);
        let k = match find_source(&order_by[i], names, schema) {
            Err(e) => {
                return Err(e);
            },
            Ok(k) => k,
        };
        let ghost before = sources_v(out@);
        let ghost o0 = out@;
        out.push(k);
        proof {
            let kv = (k.0, k.1 as int);
            assert(sources_v(out@) =~= before.push(kv));
            let rest = key_sources(ov, nv, schema@, i + 1);
            if rest is Ok {
                assert(before + (seq![kv] + rest->Ok_0) =~= sources_v(out@) + rest->Ok_0);
            }
            assert forall|j: int| 0 <= j < out@.len() implies 0 <= (#[trigger] out@[j]).1
                && out@[j].1 < (if out@[j].0 {
                names@.len() as int
            } else {
                row_width(schema@.tables) as int
            }) by {
                if j < o0.len() {
                    assert(out@[j] == o0[j]);
                }
            }
        }
    }
    assert(sources_v(out@) + Seq::<(bool, int)>::empty() =~= sources_v(out@));
    Ok(out)
}

fn source_key(out: &Vec<Value>, row: &Vec<Value>, sources: &Vec<(bool, usize)>) -> (r: Vec<Value>)
    requires
        sources_ok(sources@, out@.len() as int, row@.len() as int),
    ensures
        r@.len() == sources@.len(),
        forall|j: int|
            0 <= j < r@.len() ==> (#[trigger] r@[j])@ == (if sources@[j].0 {
                out@[sources@[j].1 as int]@
            } else {
                row@[sources@[j].1 as int]@
            }),
{
    let mut key: Vec<Value> = Vec::new();
    let n: usize = sources.len();
    for j in 0..n
        invariant
            n == sources@.len(),
            sources_ok(sources@, out@.len() as int, row@.len() as int),
            key@.len() == j,
            forall|k: int|
                0 <= k < j ==> (#[trigger] key@[k])@ == (if sources@[k].0 {
                    out@[sources@[k].1 as int]@
                } else {
                    row@[sources@[k].1 as int]@
                }),
    {
        let at: usize = sources[j].1;
        if sources[j].0 {
            key.push(out[at].clone());
        } else {
            key.push(row[at].clone());
        }
    }
    key
}

#[verifier::spinoff_prover]
fn sort_windowed(
    env: &Env,
    out: Vec<Vec<Value>>,
    rows: &Vec<Vec<Value>>,
    order_by: &Vec<OrderBy>,
    names: &Vec<String>,
    schema: &QuerySchema,
) -> (r: Result<Vec<Vec<Value>>, Error>)
    requires
        rows_fit(schema, rows@),
        out@.len() == rows@.len(),
        forall|i: int| 0 <= i < out@.len() ==> (#[trigger] out@[i])@.len() == names@.len(),
    ensures
        (match sorted_windowed(
            env@,
            rows_view(out@),
            rows_view(rows@),
            order_bys_v(order_by@),
            strings_v(names@),
            schema@,
        ) {
            Ok(s) => r is Ok && rows_view(r->Ok_0@) == s && rows_wide(s, names@.len() as int),
            Err(e) => r is Err && r->Err_0@ == e,
        }),
{
    assert(order_bys_v(order_by@).len() == order_by@.len());
    if order_by.len() == 0 {
        return Ok(out);
    }
    let sources = match find_sources(order_by, names, schema) {
        Err(e) => {
            return Err(e);
        },
        Ok(s) => s,
    };
    let ghost sv = sources_v(sources@);
    let mut keys: Vec<Vec<Value>> = Vec::new();
    let n: usize = out.len();
    let ghost want = source_keys(rows_view(out@), rows_view(rows@), sv);
    for i in 0..n
        invariant
            n == out@.len() == rows@.len(),
            rows_fit(schema, rows@),
            forall|i: int| 0 <= i < out@.len() ==> (#[trigger] out@[i])@.len() == names@.len(),
            sources_ok(sources@, names@.len() as int, row_width(schema@.tables) as int),
            sv == sources_v(sources@),
            want == source_keys(rows_view(out@), rows_view(rows@), sv),
            keys@.len() == i,
            keys_fit(keys@, sources@.len() as int),
            forall|k: int| 0 <= k < i ==> row_view(#[trigger] keys@[k]@) == want[k],
    {
        let key = source_key(&out[i], &rows[i], &sources);
        assert(row_view(key@) =~= want[i as int]);
        keys.push(key);
    }
    assert(rows_view(keys@) =~= want);
    let descs = descents_of(order_by);
    let all = positions_of(n);
    match sort_items(env, &keys, &descs, &all) {
        Err(e) => Err(e),
        Ok(at) => Ok(pick_rows(&out, &at)),
    }
}

pub fn finish(
    env: &Env,
    rows: Vec<Vec<Value>>,
    stmt: &SelectStmt,
    params: &Vec<Value>,
) -> (r: Result<Vec<Vec<Value>>, Error>)
    ensures
        (match finished(env@, rows_view(rows@), stmt@, row_view(params@)) {
            Ok(s) => r is Ok && rows_view(r->Ok_0@) == s && (forall|n: int|
                #[trigger] rows_wide(rows_view(rows@), n) ==> rows_wide(s, n)),
            Err(e) => r is Err && r->Err_0@ == e,
        }),
{
    proof {
        let rv = rows_view(rows@);
        assert forall|n: int| #[trigger] rows_wide(rv, n) implies rows_wide(distinct_rows(rv), n) by {
            lemma_distinct_wide(rv, n);
        }
    }
    let kept = if stmt.distinct {
        dedup_preserving(rows)
    } else {
        rows
    };
    limit_offset(env, kept, &stmt.limit, &stmt.offset, params)
}

/// A SELECT with window functions on the rows that WHERE left.
#[verifier::spinoff_prover]
pub fn run_windowed(
    env: &Env,
    stmt: &SelectStmt,
    schema: &QuerySchema,
    rows: &Vec<Vec<Value>>,
    params: &Vec<Value>,
) -> (r: Result<SelectOut, Error>)
    requires
        rows_fit(schema, rows@),
    ensures
        gives(r, windowed_output(env@, stmt@, schema@, rows_view(rows@), row_view(params@))),
        r is Ok ==> fits(r->Ok_0@),
{
    let windows = match collect_all_windows(&stmt.projection, schema) {
        Err(e) => {
            return Err(e);
        },
        Ok(w) => w,
    };
    let cols = match compute_windows(&env.branch(0), &windows, schema, rows, params) {
        Err(e) => {
            return Err(e);
        },
        Ok(c) => c,
    };
    let (star, star_names) = star_columns(schema);
    let names = output_names(&stmt.projection, &star_names);
    proof {
        lemma_names_width(select_items_v(stmt.projection@), strings_v(star_names@), 0);
        assert(strings_v(names@).len() == names@.len());
        assert(strings_v(star_names@).len() == star@.len());
    }
    let out = match window_rows(
        &env.branch(1),
        &stmt.projection,
        &star,
        &windows,
        &cols,
        schema,
        rows,
        params,
    ) {
        Err(e) => {
            return Err(e);
        },
        Ok(o) => o,
    };
    let sorted = match sort_windowed(env, out, rows, &stmt.order_by, &names, schema) {
        Err(e) => {
            return Err(e);
        },
        Ok(o) => o,
    };
    match finish(env, sorted, stmt, params) {
        Err(e) => Err(e),
        Ok(cut) => Ok(SelectOut { columns: names, rows: cut }),
    }
}

// --- without a table ---

/// The items from `i` on are expressions that need no table.
pub open spec fn tableless_items(items: Seq<SelectItemV>, i: int) -> Result<(), ErrorV>
    decreases items.len() - i,
{
    if i < 0 || i >= items.len() {
        Ok(())
    } else {
        match items[i] {
            SelectItemV::Star => Err(sql_error("SELECT * requiere FROM"@)),
            SelectItemV::Expr { expr, alias: _ } => if mentions_aggregate(expr) {
                Err(sql_error("un agregado requiere FROM"@))
            } else {
                tableless_items(items, i + 1)
            },
        }
    }
}

/// The values of the items from `i` on without a row.
pub open spec fn tableless_values(
    env: EnvV,
    items: Seq<SelectItemV>,
    params: Seq<ValueV>,
    i: int,
) -> Result<Seq<ValueV>, ErrorV>
    decreases items.len() - i,
{
    if i < 0 || i >= items.len() {
        Ok(Seq::empty())
    } else {
        match items[i] {
            SelectItemV::Star => Err(sql_error("SELECT * requiere FROM"@)),
            SelectItemV::Expr { expr, alias: _ } => match value_of(branch(env, i), expr, None, params) {
                Err(e) => Err(e),
                Ok(v) => match tableless_values(env, items, params, i + 1) {
                    Err(e) => Err(e),
                    Ok(rest) => Ok(seq![v] + rest),
                },
            },
        }
    }
}

/// A clause that needs a table and is there.
pub open spec fn needs_table(stmt: SelectStmtV) -> Result<(), ErrorV> {
    if stmt.joins.len() > 0 {
        Err(sql_error("JOIN requiere FROM"@))
    } else if stmt.group_by.len() > 0 {
        Err(sql_error("GROUP BY requiere FROM"@))
    } else if stmt.having is Some {
        Err(sql_error("HAVING requiere FROM"@))
    } else if stmt.order_by.len() > 0 {
        Err(sql_error("ORDER BY requiere FROM"@))
    } else if stmt.as_of is Some {
        Err(sql_error("AS OF requiere FROM"@))
    } else {
        Ok(())
    }
}

/// A SELECT without FROM: one row of constants, unless WHERE, OFFSET or LIMIT leave
/// none. What is projected counts only where the row is left.
pub open spec fn tableless_output(env: EnvV, stmt: SelectStmtV, params: Seq<ValueV>) -> Result<
    SelectOutV,
    ErrorV,
> {
    match needs_table(stmt) {
        Err(e) => Err(e),
        Ok(_) => match tableless_items(stmt.projection, 0) {
            Err(e) => Err(e),
            Ok(_) => {
                let names = names_from(stmt.projection, Seq::empty(), 0);
                let keep = match stmt.where_clause {
                    None => Ok(true),
                    Some(c) => match value_of(branch(env, 1), c, None, params) {
                        Err(e) => Err(e),
                        Ok(v) => truth(v),
                    },
                };
                match keep {
                    Err(e) => Err(e),
                    Ok(k) => match bounds(env, stmt.limit, stmt.offset, params) {
                        Err(e) => Err(e),
                        Ok((skip, limit)) => if k && skip == 0 && limit != Some(0int) {
                            match tableless_values(branch(env, 3), stmt.projection, params, 0) {
                                Err(e) => Err(e),
                                Ok(row) => Ok(SelectOutV { columns: names, rows: seq![row] }),
                            }
                        } else {
                            Ok(SelectOutV { columns: names, rows: Seq::empty() })
                        },
                    },
                }
            },
        },
    }
}

fn check_tableless(items: &Vec<SelectItem>) -> (r: Result<(), Error>)
    ensures
        checked(r, tableless_items(select_items_v(items@), 0)),
{
    let n: usize = items.len();
    let ghost its = select_items_v(items@);
    for i in 0..n
        invariant
            n == items@.len(),
            its == select_items_v(items@),
            tableless_items(its, 0) == tableless_items(its, i as int),
    {
        assert(its[i as int] == items@[i as int]@);
        match &items[i] {
            SelectItem::Star => {
                return Err(sql_lit("SELECT * requiere FROM"));
            },
            SelectItem::Expr { expr, alias: _ } => {
                if expr.has_aggregate() {
                    return Err(sql_lit("un agregado requiere FROM"));
                }
            },
        }
    }
    Ok(())
}

#[verifier::spinoff_prover]
fn eval_tableless(env: &Env, items: &Vec<SelectItem>, params: &Vec<Value>) -> (r: Result<
    Vec<Value>,
    Error,
>)
    ensures
        (match tableless_values(env@, select_items_v(items@), row_view(params@), 0) {
            Ok(vs) => r is Ok && row_view(r->Ok_0@) == vs,
            Err(e) => r is Err && r->Err_0@ == e,
        }),
{
    let mut out: Vec<Value> = Vec::new();
    let n: usize = items.len();
    let ghost its = select_items_v(items@);
    let ghost pv = row_view(params@);
    let ghost all = tableless_values(env@, its, pv, 0);
    assert(all is Ok ==> row_view(out@) + all->Ok_0 =~= all->Ok_0);
    for i in 0..n
        invariant
            n == items@.len(),
            its == select_items_v(items@),
            pv == row_view(params@),
            all == tableless_values(env@, its, pv, 0),
            (match tableless_values(env@, its, pv, i as int) {
                Ok(rest) => all == Ok::<Seq<ValueV>, ErrorV>(row_view(out@) + rest),
                Err(e) => all == Err::<Seq<ValueV>, ErrorV>(e),
            }),
    {
        assert(its[i as int] == items@[i as int]@);
        let e = match &items[i] {
            SelectItem::Star => {
                return Err(sql_lit("SELECT * requiere FROM"));
            },
            SelectItem::Expr { expr, alias: _ } => expr,
        };
        let v = match eval_const(&env.branch(i), e, params) {
            Err(x) => {
                return Err(x);
            },
            Ok(v) => v,
        };
        let ghost before = row_view(out@);
        let ghost vv = v@;
        out.push(v);
        proof {
            assert(row_view(out@) =~= before.push(vv));
            let rest = tableless_values(env@, its, pv, i + 1);
            if rest is Ok {
                assert(before + (seq![vv] + rest->Ok_0) =~= row_view(out@) + rest->Ok_0);
            }
        }
    }
    assert(row_view(out@) + Seq::<ValueV>::empty() =~= row_view(out@));
    Ok(out)
}

proof fn lemma_tableless_width(env: EnvV, items: Seq<SelectItemV>, params: Seq<ValueV>, i: int)
    requires
        tableless_values(env, items, params, i) is Ok,
    ensures
        tableless_values(env, items, params, i)->Ok_0.len() == names_from(
            items,
            Seq::empty(),
            i,
        ).len(),
    decreases items.len() - i,
{
    if 0 <= i < items.len() {
        lemma_tableless_width(env, items, params, i + 1);
    }
}

/// A SELECT without FROM.
#[verifier::spinoff_prover]
pub fn run_select_no_from(env: &Env, stmt: &SelectStmt, params: &Vec<Value>) -> (r: Result<
    SelectOut,
    Error,
>)
    ensures
        gives(r, tableless_output(env@, stmt@, row_view(params@))),
        r is Ok ==> fits(r->Ok_0@),
{
    if stmt.joins.len() > 0 {
        return Err(sql_lit("JOIN requiere FROM"));
    }
    if stmt.group_by.len() > 0 {
        return Err(sql_lit("GROUP BY requiere FROM"));
    }
    if stmt.having.is_some() {
        return Err(sql_lit("HAVING requiere FROM"));
    }
    if stmt.order_by.len() > 0 {
        return Err(sql_lit("ORDER BY requiere FROM"));
    }
    if stmt.as_of.is_some() {
        return Err(sql_lit("AS OF requiere FROM"));
    }
    match check_tableless(&stmt.projection) {
        Err(e) => {
            return Err(e);
        },
        Ok(_) => {},
    }
    let no_star: Vec<String> = Vec::new();
    let names = output_names(&stmt.projection, &no_star);
    assert(strings_v(no_star@) =~= Seq::empty());
    let keep: bool = match &stmt.where_clause {
        None => true,
        Some(c) => match eval_const(&env.branch(1), c, params) {
            Err(e) => {
                return Err(e);
            },
            Ok(v) => match truthy(&v) {
                Err(e) => {
                    return Err(e);
                },
                Ok(b) => b,
            },
        },
    };
    let (skip, limit): (usize, Option<usize>) = match limit_bounds(
        env,
        &stmt.limit,
        &stmt.offset,
        params,
    ) {
        Err(e) => {
            return Err(e);
        },
        Ok(b) => b,
    };
    let mut rows: Vec<Vec<Value>> = Vec::new();
    let cut: bool = match limit {
        Some(k) => k == 0,
        None => false,
    };
    if keep && skip == 0 && !cut {
        match eval_tableless(&env.branch(3), &stmt.projection, params) {
            Err(e) => {
                return Err(e);
            },
            Ok(row) => {
                let ghost rv = row_view(row@);
                rows.push(row);
                assert(rows_view(rows@) =~= seq![rv]);
                proof {
                    lemma_tableless_width(
                        branch(env@, 3),
                        select_items_v(stmt.projection@),
                        row_view(params@),
                        0,
                    );
                    assert(strings_v(names@).len() == rv.len());
                }
            },
        }
    } else {
        assert(rows_view(rows@) =~= Seq::empty());
    }
    Ok(SelectOut { columns: names, rows })
}

} // verus!
