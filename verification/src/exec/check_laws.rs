//! What the checks on a query are for: which columns are there, where aggregates may stand, and what
//! an expression mentions.
#[allow(unused_imports)]
use vstd::prelude::*;

#[allow(unused_imports)]
use crate::error::ErrorV;
#[allow(unused_imports)]
use crate::exec::check::{all_valid, valid_columns, without_aggregates};
#[allow(unused_imports)]
use crate::exec::ops::{branch, EnvV};
#[allow(unused_imports)]
use crate::exec::output::{grouped_output, windowed_output};
#[allow(unused_imports)]
use crate::exec::schema::{column_named, only_column, resolved, table_named, SchemaTableV, SchemaV};
#[allow(unused_imports)]
use crate::exec::select::{aggregate_output, filtered, plain_output, rows_output, Runner};
#[allow(unused_imports)]
use crate::exec::source::CteEntryV;
#[allow(unused_imports)]
use crate::record::ValueV;
#[allow(unused_imports)]
use crate::sql::ast::{AggFunc, BinOp, ExprV, SelectStmtV};
#[allow(unused_imports)]
use crate::sql::walk::{
    all_constant, any_mentions_aggregate, any_mentions_param, any_mentions_subquery, any_mentions_window, deep_parts, is_constant,
    mentions_aggregate, mentions_param, mentions_subquery, mentions_window, operands, parts,
};

verus! {

// --- columns ---

proof fn lemma_no_column(tables: Seq<SchemaTableV>, name: Seq<char>, from: int)
    requires
        0 <= from <= tables.len(),
        forall|u: int| from <= u < tables.len() ==> column_named((#[trigger] tables[u]).def.columns, name, 0) is None,
    ensures
        only_column(tables, name, from, None) is Err,
    decreases tables.len() - from,
{
    if from < tables.len() {
        lemma_no_column(tables, name, from + 1);
    }
}

proof fn lemma_two_columns(tables: Seq<SchemaTableV>, name: Seq<char>, from: int, found: Option<(int, int)>, t: int, u: int)
    requires
        0 <= from,
        t < u < tables.len(),
        found is Some && t < from <= u || from <= t,
        column_named(tables[t].def.columns, name, 0) is Some,
        column_named(tables[u].def.columns, name, 0) is Some,
    ensures
        only_column(tables, name, from, found) is Err,
    decreases tables.len() - from,
{
    match column_named(tables[from].def.columns, name, 0) {
        Some(c) => {
            if found is None {
                lemma_two_columns(tables, name, from + 1, Some((from, c)), t, u);
            }
        },
        None => lemma_two_columns(tables, name, from + 1, found, t, u),
    }
}

/// A name without a qualifier that two tables have is refused, as is one that no table has; so are an
/// unknown qualifier and a column that its table does not have.
pub proof fn unclear_names_are_refused(s: SchemaV, q: Seq<char>, name: Seq<char>, t: int, u: int)
    ensures
        0 <= t < u < s.tables.len() && column_named(s.tables[t].def.columns, name, 0) is Some && column_named(s.tables[u].def.columns, name, 0) is Some ==> resolved(s, None, name) is Err,
        (forall|k: int| 0 <= k < s.tables.len() ==> column_named((#[trigger] s.tables[k]).def.columns, name, 0) is None) ==> resolved(s, None, name) is Err,
        (forall|k: int| 0 <= k < s.tables.len() ==> (#[trigger] s.tables[k]).qualifier != q) ==> resolved(s, Some(q), name) is Err,
        (forall|k: int| 0 <= k < s.tables.len() ==> column_named((#[trigger] s.tables[k]).def.columns, name, 0) is None) ==> resolved(s, Some(q), name) is Err,
{
    if 0 <= t < u < s.tables.len() && column_named(s.tables[t].def.columns, name, 0) is Some && column_named(s.tables[u].def.columns, name, 0) is Some {
        lemma_two_columns(s.tables, name, 0, None, t, u);
    }
    if forall|k: int| 0 <= k < s.tables.len() ==> column_named((#[trigger] s.tables[k]).def.columns, name, 0) is None {
        lemma_no_column(s.tables, name, 0);
        lemma_table(s.tables, q, 0);
    }
    lemma_table(s.tables, q, 0);
}

proof fn lemma_table(tables: Seq<SchemaTableV>, q: Seq<char>, from: int)
    requires
        0 <= from <= tables.len(),
    ensures
        match table_named(tables, q, from) {
            Some(t) => from <= t < tables.len() && tables[t].qualifier == q,
            None => true,
        },
    decreases tables.len() - from,
{
    if from < tables.len() && tables[from].qualifier != q {
        lemma_table(tables, q, from + 1);
    }
}

/// The columns of both operands must be there, and those of every argument.
pub proof fn every_column_is_looked_for(a: ExprV, op: BinOp, b: ExprV, table: Option<Seq<char>>, name: Seq<char>, s: SchemaV)
    ensures
        valid_columns(ExprV::Binary(Box::new(a), op, Box::new(b)), s) is Ok <==> valid_columns(a, s) is Ok && valid_columns(b, s) is Ok,
        valid_columns(ExprV::Column { table, name }, s) is Ok <==> resolved(s, table, name) is Ok,
{
    reveal_with_fuel(all_valid, 3);
    assert(seq![a, b].drop_first() =~= seq![b]);
    assert(seq![b].drop_first() =~= Seq::<ExprV>::empty());
    let e = ExprV::Binary(Box::new(a), op, Box::new(b));
    assert(deep_parts(e) =~= seq![a, b]);
    assert(all_valid(seq![b], s) is Ok <==> valid_columns(b, s) is Ok);
    assert(all_valid(seq![a, b], s) is Ok <==> valid_columns(a, s) is Ok && all_valid(seq![b], s) is Ok);
    assert(valid_columns(e, s) == all_valid(deep_parts(e), s));
}

// --- what an expression mentions ---

/// An operator mentions what its operands mention, and is constant where they are. A column is not
/// constant; an aggregate is an aggregate.
pub proof fn operators_mention_what_their_operands_do(a: ExprV, op: BinOp, b: ExprV, table: Option<Seq<char>>, name: Seq<char>, v: ValueV, func: AggFunc, arg: Option<Box<ExprV>>, distinct: bool, sep: Option<Box<ExprV>>)
    ensures
        ({
            let e = ExprV::Binary(Box::new(a), op, Box::new(b));
            &&& mentions_aggregate(e) == (mentions_aggregate(a) || mentions_aggregate(b))
            &&& mentions_window(e) == (mentions_window(a) || mentions_window(b))
            &&& mentions_subquery(e) == (mentions_subquery(a) || mentions_subquery(b))
            &&& mentions_param(e) == (mentions_param(a) || mentions_param(b))
            &&& is_constant(e) == (is_constant(a) && is_constant(b))
        }),
        mentions_aggregate(ExprV::Aggregate { func, arg, distinct, sep }),
        !mentions_aggregate(ExprV::Column { table, name }),
        !is_constant(ExprV::Column { table, name }),
        is_constant(ExprV::Literal(v)),
{
    reveal_with_fuel(any_mentions_aggregate, 3);
    reveal_with_fuel(any_mentions_window, 3);
    reveal_with_fuel(any_mentions_subquery, 3);
    reveal_with_fuel(any_mentions_param, 3);
    reveal_with_fuel(all_constant, 3);
    assert(seq![a, b].drop_first() =~= seq![b]);
    assert(seq![b].drop_first() =~= Seq::<ExprV>::empty());
    let e = ExprV::Binary(Box::new(a), op, Box::new(b));
    assert(parts(e) =~= seq![a, b] && operands(e) =~= seq![a, b]);
    assert(any_mentions_aggregate(seq![b]) == mentions_aggregate(b));
    assert(any_mentions_aggregate(seq![a, b]) == (mentions_aggregate(a) || any_mentions_aggregate(seq![b])));
    assert(mentions_aggregate(e) == any_mentions_aggregate(parts(e)));
    assert(any_mentions_window(seq![b]) == mentions_window(b));
    assert(any_mentions_window(seq![a, b]) == (mentions_window(a) || any_mentions_window(seq![b])));
    assert(mentions_window(e) == any_mentions_window(operands(e)));
    assert(any_mentions_subquery(seq![b]) == mentions_subquery(b));
    assert(any_mentions_subquery(seq![a, b]) == (mentions_subquery(a) || any_mentions_subquery(seq![b])));
    assert(mentions_subquery(e) == any_mentions_subquery(parts(e)));
    assert(any_mentions_param(seq![b]) == mentions_param(b));
    assert(any_mentions_param(seq![a, b]) == (mentions_param(a) || any_mentions_param(seq![b])));
    assert(mentions_param(e) == any_mentions_param(operands(e)));
    assert(all_constant(seq![b]) == is_constant(b));
    assert(all_constant(seq![a, b]) == (is_constant(a) && all_constant(seq![b])));
    assert(is_constant(e) == all_constant(parts(e)));
}

/// Aggregates are refused where they may not stand, and nothing else is.
pub proof fn aggregates_have_their_place(e: ExprV, clause: Seq<char>)
    ensures
        without_aggregates(e, clause) is Err <==> mentions_aggregate(e),
{
}

/// A condition with an aggregate or with an unknown column is refused, whether or not there are
/// rows. Without a condition all rows stay.
pub proof fn conditions_are_checked_first(env: EnvV, run: Runner, ctes: Seq<CteEntryV>, cond: ExprV, s: SchemaV, rows: Seq<Seq<ValueV>>, params: Seq<ValueV>)
    ensures
        mentions_aggregate(cond) ==> filtered(env, run, ctes, Some(cond), s, rows, params) is Err,
        valid_columns(cond, s) is Err ==> filtered(env, run, ctes, Some(cond), s, rows, params) is Err,
        filtered(env, run, ctes, None, s, rows, params) == Ok::<Seq<Seq<ValueV>>, ErrorV>(rows),
{
}

// --- the form of a SELECT ---

/// A SELECT with GROUP BY gives groups; one with an aggregate among its items gives one row; HAVING
/// needs one of the two; one with a window function keeps its rows and sees them all.
pub proof fn selects_take_their_form(env: EnvV, run: Runner, ctes: Seq<CteEntryV>, stmt: SelectStmtV, s: SchemaV, rows: Seq<Seq<ValueV>>, params: Seq<ValueV>, j: int)
    requires
        0 <= j < stmt.projection.len(),
        stmt.projection[j] is Expr,
    ensures
        stmt.group_by.len() > 0 ==> rows_output(env, run, ctes, stmt, s, rows, params) == grouped_output(branch(env, 15), stmt, s, rows, params),
        stmt.group_by.len() == 0 && mentions_aggregate(stmt.projection[j]->expr) ==> rows_output(env, run, ctes, stmt, s, rows, params) == aggregate_output(branch(env, 14), stmt, s, rows, params),
        stmt.group_by.len() == 0 && stmt.having is Some && !mentions_aggregate(stmt.having->0) && (forall|i: int| 0 <= i < stmt.projection.len() && (#[trigger] stmt.projection[i]) is Expr ==> !mentions_aggregate(stmt.projection[i]->expr)) ==> rows_output(env, run, ctes, stmt, s, rows, params) is Err,
        stmt.group_by.len() == 0 && stmt.having is None && (forall|i: int| 0 <= i < stmt.projection.len() && (#[trigger] stmt.projection[i]) is Expr ==> !mentions_aggregate(stmt.projection[i]->expr)) && mentions_window(stmt.projection[j]->expr) ==> rows_output(env, run, ctes, stmt, s, rows, params) == windowed_output(branch(env, 16), stmt, s, rows, params),
        stmt.group_by.len() == 0 && stmt.having is None && (forall|i: int| 0 <= i < stmt.projection.len() && (#[trigger] stmt.projection[i]) is Expr ==> !mentions_aggregate(stmt.projection[i]->expr) && !mentions_window(stmt.projection[i]->expr)) ==> rows_output(env, run, ctes, stmt, s, rows, params) == plain_output(env, run, ctes, stmt, s, rows, params),
{
}

} // verus!
