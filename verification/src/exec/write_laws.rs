//! What writes are for: which row an INSERT proposes, what an UPDATE changes and a DELETE removes,
//! what becomes of a conflict, and when triggers run.
#[allow(unused_imports)]
use vstd::prelude::*;

#[allow(unused_imports)]
use crate::catalog::{ColType, ColumnDefV, TableDefV, TriggerDefV, TriggerForEach};
#[allow(unused_imports)]
use crate::error::ErrorV;
#[allow(unused_imports)]
use crate::exec::change::{assigned, passes_checks, returned_row, returned_rows, set_places, upsert_row, upsert_value, upserted};
#[allow(unused_imports)]
use crate::exec::check::valid_columns;
#[allow(unused_imports)]
use crate::exec::eval::value_of;
#[allow(unused_imports)]
use crate::exec::execute::{
    body_from, changed_row, changes, conflict, fired, fired_from, inserted_row, inserted_rows, new_row, row_after, row_level,
    same_key, seen, statement_level, upserted_row, with_id, Cx, InsertV, Nested,
};
#[allow(unused_imports)]
use crate::exec::joins::one_table;
#[allow(unused_imports)]
use crate::exec::journal::{held, ActionV, ReplyV, StopV};
#[allow(unused_imports)]
use crate::exec::ops::{branch, truth, EnvV};
#[allow(unused_imports)]
use crate::exec::output::{ints, values_at};
#[allow(unused_imports)]
use crate::exec::plan::place_named;
#[allow(unused_imports)]
use crate::exec::row_laws::{keeps, keeps_from, lemma_keeps_step};
#[allow(unused_imports)]
use crate::exec::schema::{column_named, def_ok, SchemaV};
#[allow(unused_imports)]
use crate::exec::write::{
    all_null, column_type, declared_columns, defaults, named_values, names_row, placed, proposed, repeated, row_column, shown,
    triggers_for_each, with_rows,
};
#[allow(unused_imports)]
use crate::record::ValueV;
#[allow(unused_imports)]
use crate::sql::ast::{ColumnAstV, ExprV, OnConflictV, SelectItemV, StmtV};
#[allow(unused_imports)]
use crate::text::ascii_upper_all;

verus! {

// --- columns by their names ---

/// A name means the first column that has it and is not dropped; where there is none it means
/// nothing.
pub proof fn names_mean_columns(columns: Seq<ColumnDefV>, name: Seq<char>, i: int)
    requires
        0 <= i <= columns.len(),
    ensures
        (match column_named(columns, name, i) {
            Some(c) => {
                &&& i <= c < columns.len()
                &&& columns[c].name == name
                &&& !columns[c].dropped
                &&& forall|k: int| i <= k < c ==> (#[trigger] columns[k]).dropped || columns[k].name != name
            },
            None => forall|k: int| i <= k < columns.len() ==> (#[trigger] columns[k]).dropped || columns[k].name != name,
        }),
        (match place_named(columns, name, i) {
            Some(c) => i <= c < columns.len() && columns[c].name == name && forall|k: int| i <= k < c ==> (#[trigger] columns[k]).name != name,
            None => forall|k: int| i <= k < columns.len() ==> (#[trigger] columns[k]).name != name,
        }),
    decreases columns.len() - i,
{
    if i < columns.len() {
        names_mean_columns(columns, name, i + 1);
    }
}

// --- the row that an INSERT proposes ---

/// The value that a column has where an INSERT does not name it: what its DEFAULT says, or NULL;
/// the column that stands for the identifier is left to the store.
pub open spec fn left_out_value(def: TableDefV, c: int) -> ValueV {
    if def.rowid_alias is Some && def.rowid_alias->0 == c {
        ValueV::Null
    } else if def.columns[c].default is Some {
        def.columns[c].default->0
    } else {
        ValueV::Null
    }
}

#[verifier::spinoff_prover]
proof fn lemma_named_values(env: EnvV, def: TableDefV, names: Seq<Seq<char>>, es: Seq<ExprV>, params: Seq<ValueV>, row: Seq<ValueV>, from: int)
    requires
        0 <= from <= es.len(),
        names.len() == es.len(),
        row.len() == def.columns.len(),
        named_values(env, def, names, es, params, row, from) is Ok,
    ensures
        ({
            let out = named_values(env, def, names, es, params, row, from)->Ok_0;
            &&& out.len() == row.len()
            &&& forall|i: int| from <= i < names.len() ==> {
                let c = column_named(def.columns, #[trigger] names[i], 0);
                c is Some && value_of(branch(env, i), es[i], None, params) == Ok::<ValueV, ErrorV>(out[c->0])
            }
            &&& forall|c: int| 0 <= c < row.len() && (forall|i: int| from <= i < names.len() ==> column_named(def.columns, #[trigger] names[i], 0) != Some(c)) ==> #[trigger] out[c] == row[c]
        }),
    decreases es.len() - from,
{
    if from < es.len() {
        let p = column_named(def.columns, names[from], 0)->0;
        names_mean_columns(def.columns, names[from], 0);
        let v = value_of(branch(env, from), es[from], None, params)->Ok_0;
        lemma_named_values(env, def, names, es, params, row.update(p, v), from + 1);
        let out = named_values(env, def, names, es, params, row, from)->Ok_0;
        assert(!repeated(names, from));
        assert forall|i: int| from + 1 <= i < names.len() implies column_named(def.columns, #[trigger] names[i], 0) != Some(p) by {
            names_mean_columns(def.columns, names[i], 0);
            assert(names[i] != names[from]);
        }
        assert(out[p] == row.update(p, v)[p]);
        assert forall|c: int| 0 <= c < row.len() && (forall|i: int| from <= i < names.len() ==> column_named(def.columns, #[trigger] names[i], 0) != Some(c)) implies #[trigger] out[c] == row[c] by {
            assert(column_named(def.columns, names[from], 0) != Some(c));
            assert(out[c] == row.update(p, v)[c]);
        }
    }
}

/// In the row that an INSERT with a list of columns proposes, each column of the list has the
/// value given for it, and every other column that declares a DEFAULT has that, unless it stands
/// for the identifier; the rest is NULL.
pub proof fn insert_fills_defaults(env: EnvV, def: TableDefV, names: Seq<Seq<char>>, es: Seq<ExprV>, params: Seq<ValueV>)
    requires
        proposed(env, def, Some(names), es, params) is Ok,
    ensures
        names.len() == es.len(),
        ({
            let row = proposed(env, def, Some(names), es, params)->Ok_0;
            &&& row.len() == def.columns.len()
            &&& forall|i: int| 0 <= i < names.len() ==> {
                let c = column_named(def.columns, #[trigger] names[i], 0);
                c is Some && value_of(branch(env, i), es[i], None, params) == Ok::<ValueV, ErrorV>(row[c->0])
            }
            &&& forall|c: int| 0 <= c < row.len() && (forall|i: int| 0 <= i < names.len() ==> column_named(def.columns, #[trigger] names[i], 0) != Some(c)) ==> #[trigger] row[c] == left_out_value(def, c)
        }),
{
    lemma_named_values(env, def, names, es, params, defaults(def), 0);
}

proof fn lemma_placed(env: EnvV, row: Seq<ValueV>, at: Seq<int>, es: Seq<ExprV>, params: Seq<ValueV>, from: int)
    requires
        0 <= from <= es.len(),
        at.len() == es.len(),
        forall|i: int| 0 <= i < at.len() ==> 0 <= #[trigger] at[i] < row.len(),
        placed(env, row, at, es, params, from) is Ok,
    ensures
        ({
            let out = placed(env, row, at, es, params, from)->Ok_0;
            &&& out.len() == row.len()
            &&& forall|i: int| from <= i < es.len() && (forall|m: int| i < m < es.len() ==> #[trigger] at[m] != at[i]) ==> value_of(branch(env, i), es[i], None, params) == Ok::<ValueV, ErrorV>(out[#[trigger] at[i]])
            &&& forall|c: int| 0 <= c < row.len() && (forall|i: int| from <= i < es.len() ==> #[trigger] at[i] != c) ==> #[trigger] out[c] == row[c]
        }),
    decreases es.len() - from,
{
    if from < es.len() {
        let v = value_of(branch(env, from), es[from], None, params)->Ok_0;
        let next = row.update(at[from], v);
        lemma_placed(env, next, at, es, params, from + 1);
        let out = placed(env, row, at, es, params, from)->Ok_0;
        assert forall|i: int| from <= i < es.len() && (forall|m: int| i < m < es.len() ==> #[trigger] at[m] != at[i]) implies value_of(branch(env, i), es[i], None, params) == Ok::<ValueV, ErrorV>(out[#[trigger] at[i]]) by {
            if i == from {
                assert(out[at[from]] == next[at[from]]);
            }
        }
        assert forall|c: int| 0 <= c < row.len() && (forall|i: int| from <= i < es.len() ==> #[trigger] at[i] != c) implies #[trigger] out[c] == row[c] by {
            assert(at[from] != c);
            assert(out[c] == next[c]);
        }
    }
}

/// The columns that are shown are those of the logical order that are not dropped, in that order.
proof fn lemma_shown(def: TableDefV, j: int)
    requires
        0 <= j <= def.logical_order.len(),
    ensures
        shown(def, j) == def.logical_order.skip(j).filter(|c: usize| !def.columns[c as int].dropped).map_values(|c: usize| c as int),
    decreases def.logical_order.len() - j,
{
    let live = |c: usize| !def.columns[c as int].dropped;
    let whole = |c: usize| c as int;
    if j == def.logical_order.len() {
        reveal(Seq::filter);
        assert(def.logical_order.skip(j) =~= Seq::<usize>::empty());
        assert(Seq::<usize>::empty().filter(live).map_values(whole) =~= Seq::<int>::empty());
    } else {
        lemma_shown(def, j + 1);
        let rest = def.logical_order.skip(j + 1);
        let c = def.logical_order[j];
        assert(def.logical_order.skip(j) =~= seq![c] + rest);
        lemma_filter_first(c, rest, live);
        assert((seq![c] + rest.filter(live)).map_values(whole) =~= seq![c as int] + rest.filter(live).map_values(whole));
    }
}

proof fn lemma_filter_first<A>(x: A, rest: Seq<A>, p: spec_fn(A) -> bool)
    ensures
        (seq![x] + rest).filter(p) == (if p(x) {
            seq![x] + rest.filter(p)
        } else {
            rest.filter(p)
        }),
    decreases rest.len(),
{
    reveal(Seq::filter);
    let all = seq![x] + rest;
    if rest.len() == 0 {
        assert(all.drop_last() =~= Seq::<A>::empty());
        assert(rest =~= Seq::<A>::empty());
        if p(x) {
            assert(all.filter(p) =~= seq![x] + rest.filter(p));
        }
    } else {
        lemma_filter_first(x, rest.drop_last(), p);
        assert(all.drop_last() =~= seq![x] + rest.drop_last());
        assert(all.last() == rest.last());
        if p(x) {
            assert(all.filter(p) =~= seq![x] + rest.filter(p));
        }
    }
}

/// An INSERT without a list of columns gives its values to the columns that are shown, in their
/// logical order, and needs one for each of them; a dropped column is left NULL.
pub proof fn insert_without_columns_fills_what_is_shown(env: EnvV, def: TableDefV, es: Seq<ExprV>, params: Seq<ValueV>)
    requires
        def_ok(def),
    ensures
        ({
            let at = def.logical_order.filter(|c: usize| !def.columns[c as int].dropped);
            &&& es.len() != at.len() ==> proposed(env, def, None, es, params) is Err
            &&& proposed(env, def, None, es, params) is Ok ==> {
                let row = proposed(env, def, None, es, params)->Ok_0;
                &&& row.len() == def.columns.len()
                &&& forall|i: int| 0 <= i < es.len() && (forall|m: int| i < m < es.len() ==> #[trigger] at[m] != at[i]) ==> value_of(branch(env, i), es[i], None, params) == Ok::<ValueV, ErrorV>(row[#[trigger] at[i] as int])
                &&& forall|c: int| 0 <= c < row.len() && (forall|i: int| 0 <= i < es.len() ==> #[trigger] at[i] != c) ==> #[trigger] row[c] == ValueV::Null
            }
        }),
{
    let at = def.logical_order.filter(|c: usize| !def.columns[c as int].dropped);
    lemma_shown(def, 0);
    assert(def.logical_order.skip(0) =~= def.logical_order);
    let places = shown(def, 0);
    assert(places == at.map_values(|c: usize| c as int));
    if proposed(env, def, None, es, params) is Ok {
        assert forall|i: int| 0 <= i < places.len() implies 0 <= #[trigger] places[i] < def.columns.len() by {
            assert(places[i] == at[i]);
            def.logical_order.lemma_filter_contains_rev(|c: usize| !def.columns[c as int].dropped, at[i]);
            assert(at.contains(at[i]));
            let k = choose|k: int| 0 <= k < def.logical_order.len() && def.logical_order[k] == at[i];
            assert(def.logical_order[k] < def.columns.len());
        }
        lemma_placed(env, all_null(def.columns.len()), places, es, params, 0);
        let row = proposed(env, def, None, es, params)->Ok_0;
        assert forall|i: int| 0 <= i < es.len() && (forall|m: int| i < m < es.len() ==> #[trigger] at[m] != at[i]) implies value_of(branch(env, i), es[i], None, params) == Ok::<ValueV, ErrorV>(row[#[trigger] at[i] as int]) by {
            assert(places[i] == at[i]);
            assert forall|m: int| i < m < es.len() implies #[trigger] places[m] != places[i] by {
                assert(places[m] == at[m]);
            }
        }
        assert forall|c: int| 0 <= c < row.len() && (forall|i: int| 0 <= i < es.len() ==> #[trigger] at[i] != c) implies #[trigger] row[c] == ValueV::Null by {
            assert forall|i: int| 0 <= i < es.len() implies #[trigger] places[i] != c by {
                assert(places[i] == at[i]);
            }
        }
    }
}

// --- what a declaration says ---

/// A declared column is kept as it is written: its name, its type, its constraints, and as its
/// default the value of its expression; a default of NULL is none.
pub proof fn declarations_keep_their_columns(env: EnvV, cs: Seq<ColumnAstV>, from: int)
    requires
        0 <= from <= cs.len(),
        declared_columns(env, cs, from) is Ok,
    ensures
        declared_columns(env, cs, from)->Ok_0.len() == cs.len() - from,
        forall|i: int| from <= i < cs.len() ==> {
            let c = #[trigger] cs[i];
            let d = declared_columns(env, cs, from)->Ok_0[i - from];
            &&& d.name == c.name
            &&& d.col_type == c.col_type
            &&& d.not_null == c.not_null
            &&& d.primary_key == c.primary_key
            &&& d.unique == c.unique
            &&& d.check == c.check
            &&& d.references == c.references
            &&& c.default is None ==> d.default is None
            &&& c.default is Some ==> match value_of(branch(env, i), c.default->0, None, Seq::empty()) {
                Ok(v) => if v is Null {
                    d.default is None
                } else {
                    d.default == Some(v)
                },
                Err(e) => false,
            }
        },
    decreases cs.len() - from,
{
    if from < cs.len() {
        declarations_keep_their_columns(env, cs, from + 1);
        let rest = declared_columns(env, cs, from + 1)->Ok_0;
        let all = declared_columns(env, cs, from)->Ok_0;
        assert forall|i: int| from < i < cs.len() implies all[i - from] == #[trigger] rest[i - (from + 1)] by {}
    }
}

/// The type that CREATE TABLE AS gives a column takes all its values: each is NULL, or of that
/// type, or an integer in a column of reals.
pub proof fn result_types_take_all_values(rows: Seq<Seq<ValueV>>, c: int, i: int)
    requires
        0 <= i < rows.len(),
        column_type(rows, c) is Ok,
    ensures
        (match rows[i][c] {
            ValueV::Null => true,
            ValueV::Integer(_) => column_type(rows, c)->Ok_0 == ColType::Integer || column_type(rows, c)->Ok_0 == ColType::Real,
            ValueV::Real(_) => column_type(rows, c)->Ok_0 == ColType::Real,
            ValueV::Text(_) => column_type(rows, c)->Ok_0 == ColType::Text,
            ValueV::Blob(_) => column_type(rows, c)->Ok_0 == ColType::Blob,
            ValueV::Bool(_) => column_type(rows, c)->Ok_0 == ColType::Boolean,
        }),
{
}

// --- what an UPDATE changes ---

proof fn lemma_assigned(env: EnvV, s: SchemaV, row: Seq<ValueV>, at: Seq<int>, sets: Seq<(Seq<char>, ExprV)>, params: Seq<ValueV>, to: Seq<ValueV>, from: int)
    requires
        0 <= from <= sets.len(),
        at.len() == sets.len(),
        forall|i: int| 0 <= i < at.len() ==> 0 <= #[trigger] at[i] < to.len(),
        assigned(env, s, row, at, sets, params, to, from) is Ok,
    ensures
        ({
            let out = assigned(env, s, row, at, sets, params, to, from)->Ok_0;
            &&& out.len() == to.len()
            &&& forall|i: int| from <= i < sets.len() && (forall|m: int| i < m < sets.len() ==> #[trigger] at[m] != at[i]) ==> value_of(branch(env, i), sets[i].1, Some((s, row)), params) == Ok::<ValueV, ErrorV>(out[#[trigger] at[i]])
            &&& forall|c: int| 0 <= c < to.len() && (forall|i: int| from <= i < sets.len() ==> #[trigger] at[i] != c) ==> #[trigger] out[c] == to[c]
        }),
    decreases sets.len() - from,
{
    if from < sets.len() {
        let v = value_of(branch(env, from), sets[from].1, Some((s, row)), params)->Ok_0;
        let next = to.update(at[from], v);
        lemma_assigned(env, s, row, at, sets, params, next, from + 1);
        let out = assigned(env, s, row, at, sets, params, to, from)->Ok_0;
        assert forall|i: int| from <= i < sets.len() && (forall|m: int| i < m < sets.len() ==> #[trigger] at[m] != at[i]) implies value_of(branch(env, i), sets[i].1, Some((s, row)), params) == Ok::<ValueV, ErrorV>(out[#[trigger] at[i]]) by {
            if i == from {
                assert(out[at[from]] == next[at[from]]);
            }
        }
        assert forall|c: int| 0 <= c < to.len() && (forall|i: int| from <= i < sets.len() ==> #[trigger] at[i] != c) implies #[trigger] out[c] == to[c] by {
            assert(at[from] != c);
            assert(out[c] == next[c]);
        }
    }
}

/// An UPDATE gives each assigned column the value of its expression on the row as it was, and
/// leaves every other column alone; of two assignments to one column the last one counts.
pub proof fn update_assigns_only_its_columns(env: EnvV, s: SchemaV, row: Seq<ValueV>, at: Seq<int>, sets: Seq<(Seq<char>, ExprV)>, params: Seq<ValueV>)
    requires
        at.len() == sets.len(),
        forall|i: int| 0 <= i < at.len() ==> 0 <= #[trigger] at[i] < row.len(),
        row_after(env, s, Some((at, sets)), row, params) is Ok,
    ensures
        ({
            let to = row_after(env, s, Some((at, sets)), row, params)->Ok_0;
            &&& to is Some
            &&& to->0.len() == row.len()
            &&& forall|i: int| 0 <= i < sets.len() && (forall|m: int| i < m < sets.len() ==> #[trigger] at[m] != at[i]) ==> value_of(branch(env, i), sets[i].1, Some((s, row)), params) == Ok::<ValueV, ErrorV>(to->0[#[trigger] at[i]])
            &&& forall|c: int| 0 <= c < row.len() && (forall|i: int| 0 <= i < sets.len() ==> #[trigger] at[i] != c) ==> #[trigger] to->0[c] == row[c]
        }),
        row_after(env, s, None, row, params) == Ok::<Option<Seq<ValueV>>, ErrorV>(None),
{
    lemma_assigned(env, s, row, at, sets, params, row, 0);
}

/// The columns that an UPDATE assigns are those that it names, none of them dropped, and none the
/// one that stands for the identifier.
pub proof fn assignments_go_to_named_columns(def: TableDefV, sets: Seq<(Seq<char>, ExprV)>, s: SchemaV, from: int)
    requires
        0 <= from <= sets.len(),
        set_places(def, false, sets, s, from) is Ok,
    ensures
        set_places(def, false, sets, s, from)->Ok_0.len() == sets.len() - from,
        forall|i: int| from <= i < sets.len() ==> {
            let c = #[trigger] set_places(def, false, sets, s, from)->Ok_0[i - from];
            &&& 0 <= c < def.columns.len()
            &&& def.columns[c].name == sets[i].0
            &&& !def.columns[c].dropped
            &&& !(def.rowid_alias is Some && def.rowid_alias->0 == c)
        },
    decreases sets.len() - from,
{
    if from < sets.len() {
        assignments_go_to_named_columns(def, sets, s, from + 1);
        names_mean_columns(def.columns, sets[from].0, 0);
        let rest = set_places(def, false, sets, s, from + 1)->Ok_0;
        let all = set_places(def, false, sets, s, from)->Ok_0;
        assert forall|i: int| from <= i < sets.len() implies {
            let c = #[trigger] all[i - from];
            &&& 0 <= c < def.columns.len()
            &&& def.columns[c].name == sets[i].0
            &&& !def.columns[c].dropped
            &&& !(def.rowid_alias is Some && def.rowid_alias->0 == c)
        } by {
            if i > from {
                assert(all[i - from] == rest[i - (from + 1)]);
            }
        }
    }
}

proof fn lemma_changes(env: EnvV, s: SchemaV, cond: Option<ExprV>, change: Option<(Seq<int>, Seq<(Seq<char>, ExprV)>)>, rows: Seq<(i64, Seq<ValueV>)>, params: Seq<ValueV>, yes: spec_fn(int) -> bool, from: int) -> (at: Seq<int>)
    requires
        0 <= from <= rows.len(),
        rows_decided(env, s, cond, rows, params, yes),
        changes(env, s, cond, change, rows, params, from) is Ok,
    ensures
        keeps_from(at, from, rows.len() as int, yes),
        ({
            let list = changes(env, s, cond, change, rows, params, from)->Ok_0;
            &&& list.len() == at.len()
            &&& forall|t: int| 0 <= t < at.len() ==> (#[trigger] list[t]).0 == rows[at[t]].0 && list[t].1 == rows[at[t]].1 && row_after(branch(branch(env, 6), at[t]), s, change, rows[at[t]].1, params) == Ok::<Option<Seq<ValueV>>, ErrorV>(list[t].2)
        }),
    decreases rows.len() - from,
{
    if from == rows.len() {
        Seq::empty()
    } else {
        assert(yes(from) || !yes(from));
        let rest = lemma_changes(env, s, cond, change, rows, params, yes, from + 1);
        let at = lemma_keeps_step(rest, from, rows.len() as int, yes);
        let list = changes(env, s, cond, change, rows, params, from)->Ok_0;
        let tail = changes(env, s, cond, change, rows, params, from + 1)->Ok_0;
        assert forall|t: int| 0 <= t < at.len() implies (#[trigger] list[t]).0 == rows[at[t]].0 && list[t].1 == rows[at[t]].1 && row_after(branch(branch(env, 6), at[t]), s, change, rows[at[t]].1, params) == Ok::<Option<Seq<ValueV>>, ErrorV>(list[t].2) by {
            if yes(from) {
                if t > 0 {
                    assert(list[t] == tail[t - 1]);
                    assert(at[t] == rest[t - 1]);
                }
            } else {
                assert(list[t] == tail[t]);
            }
        }
        at
    }
}

/// The condition of a write has a truth value on every row: true exactly where `yes` says so.
pub open spec fn rows_decided(env: EnvV, s: SchemaV, cond: Option<ExprV>, rows: Seq<(i64, Seq<ValueV>)>, params: Seq<ValueV>, yes: spec_fn(int) -> bool) -> bool {
    forall|i: int|
        0 <= i < rows.len() ==> match cond {
            None => #[trigger] yes(i),
            Some(c) => {
                let v = value_of(branch(branch(env, 4), i), c, Some((s, rows[i].1)), params);
                ||| v == Ok::<ValueV, ErrorV>(ValueV::Bool(yes(i)))
                ||| v == Ok::<ValueV, ErrorV>(ValueV::Null) && !yes(i)
            },
        }
}

/// An UPDATE or a DELETE takes exactly the rows on which its condition is true, each with its own
/// identifier, in their order; without a condition it takes all of them. What becomes of a row is
/// what the assignments make of that row, or nothing where it is deleted.
pub proof fn writes_take_what_is_true(env: EnvV, s: SchemaV, cond: Option<ExprV>, change: Option<(Seq<int>, Seq<(Seq<char>, ExprV)>)>, rows: Seq<(i64, Seq<ValueV>)>, params: Seq<ValueV>, yes: spec_fn(int) -> bool) -> (at: Seq<int>)
    requires
        rows_decided(env, s, cond, rows, params, yes),
        changes(env, s, cond, change, rows, params, 0) is Ok,
    ensures
        keeps(at, rows.len() as int, yes),
        ({
            let list = changes(env, s, cond, change, rows, params, 0)->Ok_0;
            &&& list.len() == at.len()
            &&& forall|t: int| 0 <= t < at.len() ==> (#[trigger] list[t]).0 == rows[at[t]].0 && list[t].1 == rows[at[t]].1 && row_after(branch(branch(env, 6), at[t]), s, change, rows[at[t]].1, params) == Ok::<Option<Seq<ValueV>>, ErrorV>(list[t].2)
        }),
{
    lemma_changes(env, s, cond, change, rows, params, yes, 0)
}

// --- CHECK ---

/// A row passes its CHECKs exactly where none of them is false: one that is unknown lets it pass,
/// one that is false refuses it.
pub proof fn checks_refuse_what_is_false(env: EnvV, checks: Seq<ExprV>, s: SchemaV, row: Seq<ValueV>, params: Seq<ValueV>, vals: Seq<ValueV>, from: int)
    requires
        0 <= from <= checks.len(),
        vals.len() == checks.len(),
        forall|i: int| 0 <= i < checks.len() ==> valid_columns(#[trigger] checks[i], s) is Ok && value_of(branch(env, i), checks[i], Some((s, row)), params) == Ok::<ValueV, ErrorV>(vals[i]) && (vals[i] is Bool || vals[i] is Null),
    ensures
        (passes_checks(env, checks, s, row, params, from) is Ok) <==> (forall|i: int| from <= i < checks.len() ==> #[trigger] vals[i] != ValueV::Bool(false)),
        passes_checks(env, checks, s, row, params, from) is Err ==> passes_checks(env, checks, s, row, params, from)->Err_0 is Constraint,
    decreases checks.len() - from,
{
    if from < checks.len() {
        checks_refuse_what_is_false(env, checks, s, row, params, vals, from + 1);
        assert(valid_columns(checks[from], s) is Ok);
        assert(vals[from] is Bool || vals[from] is Null);
    }
}

// --- inserting a row ---

/// The row that is stored is the proposed one, with the identifier that the store gave in the
/// column that stands for it.
pub open spec fn stored_as(def: TableDefV, row: Seq<ValueV>, id: i64, stored: Seq<ValueV>) -> bool {
    &&& stored.len() == row.len()
    &&& forall|c: int| 0 <= c < row.len() ==> #[trigger] stored[c] == (if def.rowid_alias is Some && def.rowid_alias->0 == c {
        ValueV::Integer(id)
    } else {
        row[c]
    })
}

/// An INSERT first runs its BEFORE triggers, then asks the store to insert the very row that was
/// proposed, then runs its AFTER triggers on the row as it is stored. Without triggers it asks for
/// nothing else.
pub proof fn insert_stores_the_proposed_row(cx: Cx, run: Nested, w: InsertV, row: Seq<ValueV>, k: int, k1: int, id: i64)
    requires
        0 <= k1,
        def_ok(w.def),
        row.len() == w.def.columns.len(),
        passes_checks(branch(branch(cx.env, k), 2), w.checks, one_table(w.table, w.def), row, w.params, 0) is Ok,
        fired(cx, run, w.def, w.before, None, Some(row), k) == Ok::<((), int), StopV>(((), k1)),
    ensures
        k1 >= cx.j.len() ==> new_row(cx, run, w, row, k) == Err::<(Option<Seq<ValueV>>, int), StopV>(StopV::Ask(ActionV::InsertRow { table: w.def, row })),
        k1 < cx.j.len() && cx.j[k1] == ReplyV::Id(id) ==> {
            let stored = with_id(w.def, row, id);
            &&& stored_as(w.def, row, id, stored)
            &&& new_row(cx, run, w, row, k) == (match fired(cx, run, w.def, w.after, None, Some(stored), k1 + 1) {
                Ok((_u, k2)) => Ok((Some(stored), k2)),
                Err(e) => Err(e),
            })
            &&& w.after.len() == 0 ==> new_row(cx, run, w, row, k) == Ok::<(Option<Seq<ValueV>>, int), StopV>((Some(stored), k1 + 1))
        },
        w.before.len() == 0 ==> k1 == k,
{
    reveal(new_row);
    reveal(fired);
}

/// Where a BEFORE trigger fails, the row is not written: the statement fails as the trigger did.
pub proof fn failed_triggers_stop_the_write(cx: Cx, run: Nested, w: InsertV, row: Seq<ValueV>, k: int, e: StopV, s: SchemaV, before: Seq<TriggerDefV>, after: Seq<TriggerDefV>, c: (i64, Seq<ValueV>, Option<Seq<ValueV>>))
    requires
        passes_checks(branch(branch(cx.env, k), 2), w.checks, one_table(w.table, w.def), row, w.params, 0) is Ok,
    ensures
        fired(cx, run, w.def, w.before, None, Some(row), k) == Err::<((), int), StopV>(e) ==> new_row(cx, run, w, row, k) == Err::<(Option<Seq<ValueV>>, int), StopV>(e),
        c.2 is None && fired(cx, run, w.def, before, Some(c.1), c.2, k) == Err::<((), int), StopV>(e) ==> changed_row(cx, run, s, w.def, w.checks, before, after, c, w.params, k) == Err::<((), int), StopV>(e),
{
    reveal(new_row);
    reveal(changed_row);
}

/// Every proposed row is inserted, and counted, where no conflict is provided for.
pub proof fn every_row_is_inserted(cx: Cx, run: Nested, w: InsertV, rows: Seq<Seq<ExprV>>, from: int, k: int)
    requires
        0 <= from <= rows.len(),
        w.on_conflict is None,
        inserted_rows(cx, run, w, rows, from, k) is Ok,
    ensures
        inserted_rows(cx, run, w, rows, from, k)->Ok_0.0.len() == rows.len() - from,
    decreases rows.len() - from,
{
    reveal(inserted_row);
    reveal(new_row);
    reveal(inserted_rows);
    if from < rows.len() {
        let (row, k1) = inserted_row(cx, run, w, rows[from], k)->Ok_0;
        every_row_is_inserted(cx, run, w, rows, from + 1, k1);
    }
}

// --- conflicts ---

/// The key of a row in an index.
pub open spec fn key_in(def: TableDefV, i: int, row: Seq<ValueV>) -> Seq<ValueV> {
    values_at(row, ints(def.indexes[i].columns))
}

/// A row is in conflict with the first row that the store finds under its key in a UNIQUE index,
/// the indexes taken in their order; an index that is not UNIQUE is not asked, nor one in whose
/// key there is a NULL.
pub proof fn conflicts_are_of_unique_keys(cx: Cx, def: TableDefV, row: Seq<ValueV>, i: int, k: int, id: i64, ids: Seq<i64>)
    requires
        0 <= i < def.indexes.len(),
        0 <= k,
    ensures
        !def.indexes[i].unique ==> same_key(cx, def, row, i, k) == same_key(cx, def, row, i + 1, k),
        (exists|c: int| 0 <= c < key_in(def, i, row).len() && #[trigger] key_in(def, i, row)[c] is Null) ==> same_key(cx, def, row, i, k) == same_key(cx, def, row, i + 1, k),
        def.indexes[i].unique && !(exists|c: int| 0 <= c < key_in(def, i, row).len() && #[trigger] key_in(def, i, row)[c] is Null) ==> {
            &&& k >= cx.j.len() ==> same_key(cx, def, row, i, k) == Err::<(Option<i64>, int), StopV>(StopV::Ask(ActionV::Lookup { table: def, index: def.indexes[i], key: key_in(def, i, row) }))
            &&& k < cx.j.len() && cx.j[k] == ReplyV::Ids(ids) && ids.len() > 0 ==> same_key(cx, def, row, i, k) == Ok::<(Option<i64>, int), StopV>((Some(ids[0]), k + 1))
            &&& k < cx.j.len() && cx.j[k] == ReplyV::Ids(ids) && ids.len() == 0 ==> same_key(cx, def, row, i, k) == same_key(cx, def, row, i + 1, k + 1)
        },
        same_key(cx, def, row, def.indexes.len() as int, k) == Ok::<(Option<i64>, int), StopV>((None, k)),
{
    reveal(same_key);
    let key = key_in(def, i, row);
    assert(crate::exec::execute::null_key(key) == (exists|c: int| 0 <= c < key.len() && #[trigger] key[c] is Null));
}

/// A row with an identifier of its own is in conflict with the row that has it; otherwise its
/// UNIQUE keys decide.
pub proof fn conflicts_are_of_identifiers_first(cx: Cx, def: TableDefV, row: Seq<ValueV>, k: int, id: i64, found: Seq<ValueV>)
    requires
        0 <= k,
    ensures
        def.rowid_alias is Some && row[def.rowid_alias->0 as int] == ValueV::Integer(id) ==> {
            &&& k >= cx.j.len() ==> conflict(cx, def, row, k) == Err::<(Option<i64>, int), StopV>(StopV::Ask(ActionV::Row { table: def, rowid: id }))
            &&& k < cx.j.len() && cx.j[k] == ReplyV::Row(Some(found)) && found.len() == def.columns.len() ==> conflict(cx, def, row, k) == Ok::<(Option<i64>, int), StopV>((Some(id), k + 1))
            &&& k < cx.j.len() && cx.j[k] == ReplyV::Row(None) ==> conflict(cx, def, row, k) == same_key(cx, def, row, 0, k + 1)
        },
        def.rowid_alias is None || !(row[def.rowid_alias->0 as int] is Integer) ==> conflict(cx, def, row, k) == same_key(cx, def, row, 0, k),
{
    reveal(conflict);
}

/// ON CONFLICT: a row that is in conflict is left out with DO NOTHING, and nothing is written; with
/// DO UPDATE the row it is in conflict with is changed. A row that is in no conflict is inserted,
/// and without ON CONFLICT every row is.
pub proof fn conflicts_decide_what_is_written(cx: Cx, run: Nested, w: InsertV, es: Seq<ExprV>, k: int, k1: int, row: Seq<ValueV>, id: i64, sets: Seq<(Seq<char>, ExprV)>, cond: Option<ExprV>)
    requires
        proposed(branch(branch(cx.env, k), 0), w.def, w.columns, es, w.params) == Ok::<Seq<ValueV>, ErrorV>(row),
    ensures
        w.on_conflict is None ==> inserted_row(cx, run, w, es, k) == new_row(cx, run, w, row, k),
        w.on_conflict is Some && conflict(cx, w.def, row, k) == Ok::<(Option<i64>, int), StopV>((None, k1)) ==> inserted_row(cx, run, w, es, k) == new_row(cx, run, w, row, k1),
        w.on_conflict == Some(OnConflictV::Nothing) && conflict(cx, w.def, row, k) == Ok::<(Option<i64>, int), StopV>((Some(id), k1)) ==> inserted_row(cx, run, w, es, k) == Ok::<(Option<Seq<ValueV>>, int), StopV>((None, k1)),
        w.on_conflict == Some(OnConflictV::Update { sets, where_clause: cond }) && conflict(cx, w.def, row, k) == Ok::<(Option<i64>, int), StopV>((Some(id), k1)) ==> inserted_row(cx, run, w, es, k) == upserted_row(cx, run, w, id, row, sets, cond, k1),
{
    reveal(inserted_row);
}

#[verifier::spinoff_prover]
proof fn lemma_upserted(env: EnvV, def: TableDefV, s: SchemaV, row: Seq<ValueV>, given: Seq<ValueV>, sets: Seq<(Seq<char>, ExprV)>, params: Seq<ValueV>, to: Seq<ValueV>, from: int)
    requires
        0 <= from <= sets.len(),
        to.len() == def.columns.len(),
        upserted(env, def, s, row, given, sets, params, to, from) is Ok,
    ensures
        ({
            let out = upserted(env, def, s, row, given, sets, params, to, from)->Ok_0;
            &&& out.len() == to.len()
            &&& forall|i: int| from <= i < sets.len() && (forall|m: int| i < m < sets.len() ==> (#[trigger] sets[m]).0 != sets[i].0) ==> upsert_gives(env, def, s, row, given, #[trigger] sets[i], params, i, out)
            &&& forall|c: int| 0 <= c < to.len() && (forall|i: int| from <= i < sets.len() ==> column_named(def.columns, (#[trigger] sets[i]).0, 0) != Some(c)) ==> #[trigger] out[c] == to[c]
        }),
    decreases sets.len() - from,
{
    if from < sets.len() {
        let p = upsert_value(branch(env, from), def, s, row, given, sets[from].0, sets[from].1, params)->Ok_0;
        names_mean_columns(def.columns, sets[from].0, 0);
        let next = to.update(p.0, p.1);
        lemma_upserted(env, def, s, row, given, sets, params, next, from + 1);
        let out = upserted(env, def, s, row, given, sets, params, to, from)->Ok_0;
        assert forall|i: int| from <= i < sets.len() && (forall|m: int| i < m < sets.len() ==> (#[trigger] sets[m]).0 != sets[i].0) implies upsert_gives(env, def, s, row, given, #[trigger] sets[i], params, i, out) by {
            if i == from {
                assert forall|m: int| from + 1 <= m < sets.len() implies column_named(def.columns, (#[trigger] sets[m]).0, 0) != Some(p.0) by {
                    names_mean_columns(def.columns, sets[m].0, 0);
                }
                assert(out[p.0] == next[p.0]);
            }
        }
        assert forall|c: int| 0 <= c < to.len() && (forall|i: int| from <= i < sets.len() ==> column_named(def.columns, (#[trigger] sets[i]).0, 0) != Some(c)) implies #[trigger] out[c] == to[c] by {
            assert(column_named(def.columns, sets[from].0, 0) != Some(c));
            assert(out[c] == next[c]);
        }
    }
}

/// An assignment of an upsert puts into its column the value of its expression on the row in
/// conflict, with the row that could not be inserted under the name EXCLUDED.
pub open spec fn upsert_gives(env: EnvV, def: TableDefV, s: SchemaV, row: Seq<ValueV>, given: Seq<ValueV>, set: (Seq<char>, ExprV), params: Seq<ValueV>, i: int, out: Seq<ValueV>) -> bool {
    let c = column_named(def.columns, set.0, 0);
    let x = with_rows(set.1, def, None, Some(given));
    &&& c is Some
    &&& x is Ok
    &&& value_of(branch(env, i), x->Ok_0, Some((s, row)), params) == Ok::<ValueV, ErrorV>(out[c->0])
}

/// DO UPDATE changes of the row in conflict the assigned columns only, each to the value of its
/// expression; where its condition is not true it leaves the row as it is.
pub proof fn upserts_assign_only_their_columns(env: EnvV, table: Seq<char>, def: TableDefV, row: Seq<ValueV>, given: Seq<ValueV>, sets: Seq<(Seq<char>, ExprV)>, cond: Option<ExprV>, params: Seq<ValueV>)
    requires
        row.len() == def.columns.len(),
    ensures
        upsert_row(env, table, def, row, given, sets, cond, params) matches Ok(Some(to)) ==> {
            &&& to.len() == row.len()
            &&& forall|i: int| 0 <= i < sets.len() && (forall|m: int| i < m < sets.len() ==> (#[trigger] sets[m]).0 != sets[i].0) ==> upsert_gives(branch(env, 1), def, one_table(table, def), row, given, #[trigger] sets[i], params, i, to)
            &&& forall|c: int| 0 <= c < row.len() && (forall|i: int| 0 <= i < sets.len() ==> column_named(def.columns, (#[trigger] sets[i]).0, 0) != Some(c)) ==> #[trigger] to[c] == row[c]
        },
        cond is None ==> upsert_row(env, table, def, row, given, sets, cond, params) != Ok::<Option<Seq<ValueV>>, ErrorV>(None),
        ({
            let x = with_rows(cond->0, def, None, Some(given));
            let v = value_of(branch(env, 0), x->Ok_0, Some((one_table(table, def), row)), params);
            cond is Some && x is Ok && valid_columns(x->Ok_0, one_table(table, def)) is Ok && (v == Ok::<ValueV, ErrorV>(ValueV::Null) || v == Ok::<ValueV, ErrorV>(ValueV::Bool(false)))
                ==> upsert_row(env, table, def, row, given, sets, cond, params) == Ok::<Option<Seq<ValueV>>, ErrorV>(None)
        }),
        ({
            let x = with_rows(cond->0, def, None, Some(given));
            let v = value_of(branch(env, 0), x->Ok_0, Some((one_table(table, def), row)), params);
            cond is Some && x is Ok && v == Ok::<ValueV, ErrorV>(ValueV::Bool(true)) ==> upsert_row(env, table, def, row, given, sets, cond, params) != Ok::<Option<Seq<ValueV>>, ErrorV>(None)
        }),
{
    if upsert_row(env, table, def, row, given, sets, cond, params) matches Ok(Some(to)) {
        lemma_upserted(branch(env, 1), def, one_table(table, def), row, given, sets, params, row, 0);
    }
}

/// An upsert reads the row in conflict, runs the BEFORE triggers of an UPDATE on it and on what it
/// becomes, asks the store to write just that under the same identifier, and runs the AFTER
/// triggers.
pub proof fn upserts_write_the_row_in_conflict(cx: Cx, run: Nested, w: InsertV, id: i64, given: Seq<ValueV>, sets: Seq<(Seq<char>, ExprV)>, cond: Option<ExprV>, k: int, row: Seq<ValueV>, to: Seq<ValueV>, k2: int)
    requires
        0 <= k < cx.j.len(),
        0 <= k2,
        cx.j[k] == ReplyV::Row(Some(row)),
        row.len() == w.def.columns.len(),
        upsert_row(branch(branch(cx.env, k + 1), 1), w.table, w.def, row, given, sets, cond, w.params) == Ok::<Option<Seq<ValueV>>, ErrorV>(Some(to)),
        passes_checks(branch(branch(cx.env, k + 1), 2), w.checks, one_table(w.table, w.def), to, w.params, 0) is Ok,
        fired(cx, run, w.def, w.update_before, Some(row), Some(to), k + 1) == Ok::<((), int), StopV>(((), k2)),
    ensures
        k2 >= cx.j.len() ==> upserted_row(cx, run, w, id, given, sets, cond, k) == Err::<(Option<Seq<ValueV>>, int), StopV>(StopV::Ask(ActionV::UpdateRow { table: w.def, rowid: id, row: to })),
        k2 < cx.j.len() && cx.j[k2] == ReplyV::Done ==> upserted_row(cx, run, w, id, given, sets, cond, k) == (match fired(cx, run, w.def, w.update_after, Some(row), Some(to), k2 + 1) {
            Ok((_u, k3)) => Ok((Some(to), k3)),
            Err(e) => Err(e),
        }),
{
    reveal(upserted_row);
}

// --- changing a row ---

/// A change first runs the BEFORE triggers, then asks the store to write the new row, or to delete
/// the old one, under the identifier of that row, then runs the AFTER triggers; both see the row as
/// it was and as it becomes.
pub proof fn changes_are_written_under_their_identifier(cx: Cx, run: Nested, s: SchemaV, def: TableDefV, checks: Seq<ExprV>, before: Seq<TriggerDefV>, after: Seq<TriggerDefV>, id: i64, was: Seq<ValueV>, to: Option<Seq<ValueV>>, params: Seq<ValueV>, k: int, k1: int)
    requires
        0 <= k1,
        to is Some ==> passes_checks(branch(branch(cx.env, k), 2), checks, s, to->0, params, 0) is Ok,
        fired(cx, run, def, before, Some(was), to, k) == Ok::<((), int), StopV>(((), k1)),
    ensures
        k1 >= cx.j.len() && to is Some ==> changed_row(cx, run, s, def, checks, before, after, (id, was, to), params, k) == Err::<((), int), StopV>(StopV::Ask(ActionV::UpdateRow { table: def, rowid: id, row: to->0 })),
        k1 >= cx.j.len() && to is None ==> changed_row(cx, run, s, def, checks, before, after, (id, was, to), params, k) == Err::<((), int), StopV>(StopV::Ask(ActionV::DeleteRow { table: def, rowid: id })),
        k1 < cx.j.len() && cx.j[k1] == ReplyV::Done ==> changed_row(cx, run, s, def, checks, before, after, (id, was, to), params, k) == fired(cx, run, def, after, Some(was), to, k1 + 1),
{
    reveal(changed_row);
}

/// RETURNING sees the rows as they become, and deleted ones as they were.
pub proof fn returning_sees_the_new_rows(list: Seq<(i64, Seq<ValueV>, Option<Seq<ValueV>>)>, i: int)
    requires
        0 <= i < list.len(),
    ensures
        seen(list).len() == list.len(),
        list[i].2 is Some ==> seen(list)[i] == list[i].2->0,
        list[i].2 is None ==> seen(list)[i] == list[i].1,
{
}

proof fn lemma_returned_row(env: EnvV, items: Seq<SelectItemV>, s: SchemaV, row: Seq<ValueV>, params: Seq<ValueV>, from: int)
    requires
        0 <= from <= items.len(),
        forall|j: int| 0 <= j < items.len() ==> (#[trigger] items[j]) is Expr,
        returned_row(env, items, s, row, params, from) is Ok,
    ensures
        ({
            let out = returned_row(env, items, s, row, params, from)->Ok_0;
            &&& out.len() == items.len() - from
            &&& forall|j: int| from <= j < items.len() ==> value_of(branch(env, j), (#[trigger] items[j])->expr, Some((s, row)), params) == Ok::<ValueV, ErrorV>(out[j - from])
        }),
    decreases items.len() - from,
{
    if from < items.len() {
        assert(items[from] is Expr);
        lemma_returned_row(env, items, s, row, params, from + 1);
    }
}

/// RETURNING gives one row for each row that was written, in their order, with the value of its
/// `j`-th item on that row in the `j`-th column.
pub proof fn returning_shows_each_item(env: EnvV, items: Seq<SelectItemV>, s: SchemaV, rows: Seq<Seq<ValueV>>, params: Seq<ValueV>, from: int)
    requires
        0 <= from <= rows.len(),
        forall|j: int| 0 <= j < items.len() ==> (#[trigger] items[j]) is Expr,
        returned_rows(env, items, s, rows, params, from) is Ok,
    ensures
        returned_rows(env, items, s, rows, params, from)->Ok_0.len() == rows.len() - from,
        forall|i: int| from <= i < rows.len() ==> row_shows(branch(env, i), items, s, #[trigger] rows[i], params, returned_rows(env, items, s, rows, params, from)->Ok_0[i - from]),
    decreases rows.len() - from,
{
    if from < rows.len() {
        returning_shows_each_item(env, items, s, rows, params, from + 1);
        lemma_returned_row(branch(env, from), items, s, rows[from], params, 0);
    }
}

/// An output row has the value of the `j`-th item on a row in its `j`-th column.
pub open spec fn row_shows(env: EnvV, items: Seq<SelectItemV>, s: SchemaV, row: Seq<ValueV>, params: Seq<ValueV>, out: Seq<ValueV>) -> bool {
    out.len() == items.len() && forall|j: int| 0 <= j < items.len() ==> value_of(branch(env, j), (#[trigger] items[j])->expr, Some((s, row)), params) == Ok::<ValueV, ErrorV>(out[j])
}

// --- triggers ---

/// The triggers for each row and those for the statement are told apart: of either kind all run,
/// in their order, and none of the other.
pub proof fn triggers_are_told_apart(ts: Seq<TriggerDefV>)
    ensures
        row_level(ts) == ts.filter(|t: TriggerDefV| t.for_each == TriggerForEach::Row),
        statement_level(ts) == ts.filter(|t: TriggerDefV| t.for_each == TriggerForEach::Statement),
{
    lemma_for_each(ts, TriggerForEach::Row, 0);
    lemma_for_each(ts, TriggerForEach::Statement, 0);
    assert(ts.skip(0) =~= ts);
}

proof fn lemma_for_each(ts: Seq<TriggerDefV>, kind: TriggerForEach, i: int)
    requires
        0 <= i <= ts.len(),
    ensures
        triggers_for_each(ts, kind, i) == ts.skip(i).filter(|t: TriggerDefV| t.for_each == kind),
    decreases ts.len() - i,
{
    let p = |t: TriggerDefV| t.for_each == kind;
    if i == ts.len() {
        reveal(Seq::filter);
        assert(ts.skip(i) =~= Seq::<TriggerDefV>::empty());
        assert(ts.skip(i).filter(p) =~= Seq::<TriggerDefV>::empty());
    } else {
        lemma_for_each(ts, kind, i + 1);
        assert(ts.skip(i) =~= seq![ts[i]] + ts.skip(i + 1));
        lemma_filter_first(ts[i], ts.skip(i + 1), p);
    }
}

/// In the body of a trigger OLD names the row as it was, NEW the row as it becomes, and EXCLUDED
/// the row that could not be inserted, each by the names of its columns; where there is no such
/// row it is an error.
pub proof fn row_names_mean_their_rows(q: Seq<char>, name: Seq<char>, def: TableDefV, before: Option<Seq<ValueV>>, after: Option<Seq<ValueV>>, c: int)
    requires
        0 <= c < def.columns.len(),
        def.columns[c].name == name,
        forall|k: int| 0 <= k < c ==> (#[trigger] def.columns[k]).name != name,
    ensures
        ascii_upper_all(q) == "OLD"@ && before is Some ==> row_column(q, name, def, before, after) == Ok::<ExprV, ErrorV>(ExprV::Literal(before->0[c])),
        ascii_upper_all(q) == "NEW"@ && after is Some ==> row_column(q, name, def, before, after) == Ok::<ExprV, ErrorV>(ExprV::Literal(after->0[c])),
        ascii_upper_all(q) == "EXCLUDED"@ && after is Some ==> row_column(q, name, def, before, after) == Ok::<ExprV, ErrorV>(ExprV::Literal(after->0[c])),
        ascii_upper_all(q) == "OLD"@ && before is None ==> row_column(q, name, def, before, after) is Err,
        ascii_upper_all(q) == "NEW"@ && after is None ==> row_column(q, name, def, before, after) is Err,
        names_row(q) ==> with_rows(ExprV::Column { table: Some(q), name }, def, before, after) == row_column(q, name, def, before, after),
{
    reveal_strlit("OLD");
    reveal_strlit("NEW");
    reveal_strlit("EXCLUDED");
    assert("OLD"@[0] == 'O' && "NEW"@[0] == 'N');
    names_mean_columns(def.columns, name, 0);
    reveal_with_fuel(with_rows, 2);
}

/// The statements of a body run one after the other, each with the values of the rows that it
/// names; the first that fails ends the body.
pub proof fn bodies_run_in_order(run: Nested, def: TableDefV, stmts: Seq<StmtV>, last: StmtV, before: Option<Seq<ValueV>>, after: Option<Seq<ValueV>>, i: int, k: int)
    requires
        0 <= i <= stmts.len(),
    ensures
        body_from(run, def, stmts.push(last), before, after, i, k) == (match body_from(run, def, stmts, before, after, i, k) {
            Err(e) => Err(e),
            Ok((_u, k1)) => match crate::exec::write::stmt_with_rows(last, def, before, after) {
                Err(e) => Err(StopV::Fail(e, k1)),
                Ok(stmt) => match run(stmt, k1) {
                    Err(e) => Err(e),
                    Ok((_n, k2)) => Ok(((), k2)),
                },
            },
        }),
    decreases stmts.len() - i,
{
    reveal_with_fuel(body_from, 3);
    if i < stmts.len() {
        assert(stmts.push(last)[i] == stmts[i]);
        if let Ok(stmt) = held(crate::exec::write::stmt_with_rows(stmts[i], def, before, after), k) {
            if let Ok((_n, k1)) = run(stmt, k) {
                bodies_run_in_order(run, def, stmts, last, before, after, i + 1, k1);
            }
        }
    } else {
        assert(stmts.push(last)[i] == last);
    }
}

/// Triggers run between an entry and an exit, which is asked for also where one of them fails;
/// without triggers nothing is asked.
pub proof fn triggers_run_between_entry_and_exit(cx: Cx, run: Nested, def: TableDefV, ts: Seq<TriggerDefV>, before: Option<Seq<ValueV>>, after: Option<Seq<ValueV>>, k: int, k2: int, e: ErrorV)
    requires
        0 <= k,
        0 <= k2,
    ensures
        ts.len() == 0 ==> fired(cx, run, def, ts, before, after, k) == Ok::<((), int), StopV>(((), k)),
        ts.len() > 0 && k >= cx.j.len() ==> fired(cx, run, def, ts, before, after, k) == Err::<((), int), StopV>(StopV::Ask(ActionV::EnterTrigger)),
        ts.len() > 0 && k < cx.j.len() && cx.j[k] == ReplyV::Done && fired_from(cx, run, def, ts, before, after, 0, k + 1) == Ok::<((), int), StopV>(((), k2)) ==> {
            &&& k2 >= cx.j.len() ==> fired(cx, run, def, ts, before, after, k) == Err::<((), int), StopV>(StopV::Ask(ActionV::ExitTrigger))
            &&& k2 < cx.j.len() && cx.j[k2] == ReplyV::Done ==> fired(cx, run, def, ts, before, after, k) == Ok::<((), int), StopV>(((), k2 + 1))
        },
        ts.len() > 0 && k < cx.j.len() && cx.j[k] == ReplyV::Done && fired_from(cx, run, def, ts, before, after, 0, k + 1) == Err::<((), int), StopV>(StopV::Fail(e, k2)) ==> {
            &&& k2 >= cx.j.len() ==> fired(cx, run, def, ts, before, after, k) == Err::<((), int), StopV>(StopV::Ask(ActionV::ExitTrigger))
            &&& k2 < cx.j.len() && cx.j[k2] == ReplyV::Done ==> fired(cx, run, def, ts, before, after, k) == Err::<((), int), StopV>(StopV::Fail(e, k2 + 1))
        },
{
    reveal(fired);
}

} // verus!
