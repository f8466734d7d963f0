//! What the choice of an access is for: the rows that it reaches are those that the condition
//! can hold for, so that an index answers as a look at all rows would.
#[allow(unused_imports)]
use vstd::prelude::*;

#[allow(unused_imports)]
use crate::catalog::TableDefV;
#[allow(unused_imports)]
use crate::error::ErrorV;
#[allow(unused_imports)]
use crate::exec::change::candidates;
#[allow(unused_imports)]
use crate::exec::eval::value_of;
#[allow(unused_imports)]
use crate::exec::joins::conjuncts;
#[allow(unused_imports)]
use crate::exec::ops::coerced;
#[allow(unused_imports)]
use crate::exec::ops::{branch, EnvV};
#[allow(unused_imports)]
use crate::exec::plan::{
    access, best_index, column_place, covering, equal_plan, equal_to, equalities, index_on, key_values, match_access, match_in,
    nearest_access, point_key, range_access, range_plan, reached, rows_with, shortlist, AccessV,
};
#[allow(unused_imports)]
use crate::exec::row_laws::{keeps, keeps_from, lemma_keeps_step};
#[allow(unused_imports)]
use crate::exec::source::DataSource;
#[allow(unused_imports)]
use crate::record::ValueV;
#[allow(unused_imports)]
use crate::sql::ast::{BinOp, ExprV, SelectStmtV};
#[allow(unused_imports)]
use crate::sql::walk::is_constant;

verus! {

// --- the row with an identifier ---

/// `e` names the column that is the row identifier.
pub open spec fn names_identifier(e: ExprV, q: Seq<char>, def: TableDefV) -> bool {
    &&& def.rowid_alias is Some
    &&& e is Column
    &&& e->Column_name == def.columns[def.rowid_alias->0 as int].name
    &&& e->table is None || e->table == Some(q)
}

/// A row is looked up by its identifier exactly where the whole condition equates the identifier
/// with a constant, on whichever side.
pub proof fn identifiers_are_looked_up_where_equated(q: Seq<char>, def: TableDefV, c: ExprV, k: ExprV, op: BinOp, cond: Option<ExprV>)
    requires
        names_identifier(c, q, def),
        is_constant(k),
    ensures
        point_key(q, def, Some(ExprV::Binary(Box::new(c), BinOp::Eq, Box::new(k)))) == Some(k),
        point_key(q, def, Some(ExprV::Binary(Box::new(k), BinOp::Eq, Box::new(c)))) == Some(k),
        op != BinOp::Eq ==> point_key(q, def, Some(ExprV::Binary(Box::new(c), op, Box::new(k)))) is None,
        point_key(q, def, cond) is Some ==> cond is Some && ({
            let v = point_key(q, def, cond)->0;
            &&& cond->0 is Binary
            &&& cond->0->Binary_1 == BinOp::Eq
            &&& is_constant(v)
            &&& (names_identifier(*cond->0->Binary_0, q, def) && *cond->0->Binary_2 == v) || (names_identifier(*cond->0->Binary_2, q, def) && *cond->0->Binary_0 == v)
        }),
        point_key(q, def, None) is None,
{
    assert(!is_constant(c));
}

/// Where a row is looked up by its identifier, it is the row with that identifier, or there is
/// none. An identifier that is no integer leaves all rows to be looked at.
pub proof fn lookups_reach_the_row<S: DataSource>(src: S, env: EnvV, q: Seq<char>, def: TableDefV, stmt: SelectStmtV, params: Seq<ValueV>, k: ExprV, v: ValueV, id: i64, row: Seq<ValueV>)
    requires
        point_key(q, def, stmt.where_clause) == Some(k),
        value_of(branch(env, 22), k, None, params) == Ok::<ValueV, ErrorV>(v),
    ensures
        v == ValueV::Integer(id) ==> access(env, q, def, stmt, params) == Ok::<AccessV, ErrorV>(AccessV::One(id)),
        !(v is Integer) ==> access(env, q, def, stmt, params) == Ok::<AccessV, ErrorV>(AccessV::Scan),
        src.row_of(def, id) == Ok::<Option<Seq<ValueV>>, ErrorV>(Some(row)) ==> reached(src, def, AccessV::One(id)) == Ok::<Seq<Seq<ValueV>>, ErrorV>(seq![row]),
        src.row_of(def, id) == Ok::<Option<Seq<ValueV>>, ErrorV>(None) ==> reached(src, def, AccessV::One(id)) == Ok::<Seq<Seq<ValueV>>, ErrorV>(Seq::empty()),
        reached(src, def, AccessV::Scan) == src.all_rows(def),
{
}

// --- the rows that equal ---

/// A condition that has to hold for the whole condition to hold equates column `c` with `k`.
pub open spec fn equated(q: Seq<char>, def: TableDefV, cond: ExprV, c: int, k: ExprV) -> bool {
    exists|i: int| 0 <= i < conjuncts(cond).len() && #[trigger] equates(q, def, conjuncts(cond)[i], c, k)
}

pub open spec fn equates(q: Seq<char>, def: TableDefV, e: ExprV, c: int, k: ExprV) -> bool {
    &&& e is Binary
    &&& e->Binary_1 == BinOp::Eq
    &&& is_constant(k)
    &&& (column_place(q, def, *e->Binary_0) == Some(c) && *e->Binary_2 == k) || (column_place(q, def, *e->Binary_2) == Some(c) && *e->Binary_0 == k)
}

proof fn lemma_equalities(q: Seq<char>, def: TableDefV, cond: ExprV, j: int)
    requires
        0 <= j < equalities(q, def, cond).len(),
    ensures
        equated(q, def, cond, equalities(q, def, cond)[j].0, equalities(q, def, cond)[j].1),
    decreases cond,
{
    match cond {
        ExprV::Binary(l, BinOp::And, r) => {
            let a = equalities(q, def, *l);
            let (x, y) = (conjuncts(*l), conjuncts(*r));
            assert(conjuncts(cond) == x + y);
            if j < a.len() {
                lemma_equalities(q, def, *l, j);
                let (c, k) = a[j];
                let i = choose|i: int| 0 <= i < x.len() && #[trigger] equates(q, def, x[i], c, k);
                assert(conjuncts(cond)[i] == x[i]);
                assert(equates(q, def, conjuncts(cond)[i], c, k));
            } else {
                lemma_equalities(q, def, *r, j - a.len());
                let (c, k) = equalities(q, def, *r)[j - a.len()];
                let i = choose|i: int| 0 <= i < y.len() && #[trigger] equates(q, def, y[i], c, k);
                assert(conjuncts(cond)[x.len() + i] == y[i]);
                assert(equates(q, def, conjuncts(cond)[x.len() + i], c, k));
            }
        },
        _ => {
            assert(conjuncts(cond)[0] == cond);
            let (c, k) = equalities(q, def, cond)[j];
            assert(equates(q, def, conjuncts(cond)[0], c, k));
        },
    }
}

proof fn lemma_equal_to(q: Seq<char>, def: TableDefV, cond: ExprV, c: int, from: int)
    requires
        0 <= from,
        equal_to(equalities(q, def, cond), c, from) is Some,
    ensures
        equated(q, def, cond, c, equal_to(equalities(q, def, cond), c, from)->0),
    decreases equalities(q, def, cond).len() - from,
{
    let eqs = equalities(q, def, cond);
    if eqs[from].0 == c {
        lemma_equalities(q, def, cond, from);
    } else {
        lemma_equal_to(q, def, cond, c, from + 1);
    }
}

proof fn lemma_covered(q: Seq<char>, def: TableDefV, cond: ExprV, cols: Seq<usize>, from: int)
    requires
        0 <= from <= cols.len(),
        covering(cols, equalities(q, def, cond), from) is Some,
    ensures
        covering(cols, equalities(q, def, cond), from)->0.len() == cols.len() - from,
        forall|k: int| from <= k < cols.len() ==> equated(q, def, cond, #[trigger] cols[k] as int, covering(cols, equalities(q, def, cond), from)->0[k - from]),
    decreases cols.len() - from,
{
    if from < cols.len() {
        lemma_covered(q, def, cond, cols, from + 1);
        lemma_equal_to(q, def, cond, cols[from] as int, 0);
        let all = covering(cols, equalities(q, def, cond), from)->0;
        let rest = covering(cols, equalities(q, def, cond), from + 1)->0;
        assert forall|k: int| from <= k < cols.len() implies equated(q, def, cond, #[trigger] cols[k] as int, all[k - from]) by {
            if k > from {
                assert(all[k - from] == rest[k - (from + 1)]);
            }
        }
    }
}

proof fn lemma_best(def: TableDefV, eqs: Seq<(int, ExprV)>, from: int, best: Option<(int, Seq<ExprV>)>)
    requires
        0 <= from <= def.indexes.len(),
        best is Some ==> 0 <= (best->0).0 < from && covering(def.indexes[(best->0).0].columns, eqs, 0) == Some((best->0).1),
        forall|x: int| 0 <= x < from && covering((#[trigger] def.indexes[x]).columns, eqs, 0) is Some ==> best is Some && def.indexes[x].columns.len() <= def.indexes[(best->0).0].columns.len(),
    ensures
        ({
            let r = best_index(def.indexes, eqs, from, best);
            &&& r is Some ==> 0 <= (r->0).0 < def.indexes.len() && covering(def.indexes[(r->0).0].columns, eqs, 0) == Some((r->0).1)
            &&& forall|x: int| 0 <= x < def.indexes.len() && covering((#[trigger] def.indexes[x]).columns, eqs, 0) is Some ==> r is Some && def.indexes[x].columns.len() <= def.indexes[(r->0).0].columns.len()
        }),
    decreases def.indexes.len() - from,
{
    if from < def.indexes.len() {
        let next = match covering(def.indexes[from].columns, eqs, 0) {
            Some(es) if best is None || def.indexes[from].columns.len() > def.indexes[(best->0).0].columns.len() => Some((from, es)),
            _ => best,
        };
        lemma_best(def, eqs, from + 1, next);
    }
}

/// An index is asked for equal rows only where the condition cannot hold unless every column of
/// the index equals the constant that is asked for; no index with more columns would do.
pub proof fn indexes_answer_what_is_equated(q: Seq<char>, def: TableDefV, cond: ExprV)
    requires
        equal_plan(q, def, Some(cond)) is Some,
    ensures
        ({
            let (i, es) = equal_plan(q, def, Some(cond))->0;
            let cols = def.indexes[i].columns;
            &&& 0 <= i < def.indexes.len()
            &&& es.len() == cols.len()
            &&& forall|k: int| 0 <= k < cols.len() ==> equated(q, def, cond, #[trigger] cols[k] as int, es[k])
            &&& forall|x: int| 0 <= x < def.indexes.len() && covering((#[trigger] def.indexes[x]).columns, equalities(q, def, cond), 0) is Some ==> def.indexes[x].columns.len() <= cols.len()
        }),
{
    let eqs = equalities(q, def, cond);
    lemma_best(def, eqs, 0, None);
    let (i, es) = equal_plan(q, def, Some(cond))->0;
    let cols = def.indexes[i].columns;
    lemma_covered(q, def, cond, cols, 0);
    assert forall|k: int| 0 <= k < cols.len() implies equated(q, def, cond, #[trigger] cols[k] as int, es[k]) by {
        assert(es[k - 0] == es[k]);
    }
}

/// The columns of an index are asked for with the values of their constants, each as its column
/// stores it. A constant that is NULL leaves the index unasked.
pub proof fn index_keys_are_the_constants(env: EnvV, def: TableDefV, cols: Seq<usize>, es: Seq<ExprV>, params: Seq<ValueV>, from: int)
    requires
        0 <= from <= cols.len() == es.len(),
        key_values(env, def, cols, es, params, from) is Ok,
        key_values(env, def, cols, es, params, from)->Ok_0 is Some,
    ensures
        (key_values(env, def, cols, es, params, from)->Ok_0)->0.len() == cols.len() - from,
        forall|k: int|
            from <= k < cols.len() ==> {
                let v = value_of(branch(env, k), #[trigger] es[k], None, params);
                &&& v is Ok
                &&& !(v->Ok_0 is Null)
                &&& coerced(env, v->Ok_0, def.columns[cols[k] as int].col_type) == Ok::<Option<ValueV>, ErrorV>(Some((key_values(env, def, cols, es, params, from)->Ok_0)->0[k - from]))
            },
    decreases cols.len() - from,
{
    if from < cols.len() {
        index_keys_are_the_constants(env, def, cols, es, params, from + 1);
        let all = (key_values(env, def, cols, es, params, from)->Ok_0)->0;
        let rest = (key_values(env, def, cols, es, params, from + 1)->Ok_0)->0;
        assert forall|k: int| from <= k < cols.len() implies {
            let v = value_of(branch(env, k), #[trigger] es[k], None, params);
            &&& v is Ok
            &&& !(v->Ok_0 is Null)
            &&& coerced(env, v->Ok_0, def.columns[cols[k] as int].col_type) == Ok::<Option<ValueV>, ErrorV>(Some(all[k - from]))
        } by {
            if k > from {
                assert(all[k - from] == rest[k - (from + 1)]);
            }
        }
    }
}

// --- the rows in a range ---

proof fn lemma_index_on(def: TableDefV, c: int, from: int)
    requires
        0 <= from,
        index_on(def.indexes, c, from) is Some,
    ensures
        ({
            let i = index_on(def.indexes, c, from)->0;
            from <= i < def.indexes.len() && def.indexes[i].columns.len() == 1 && def.indexes[i].columns[0] == c
        }),
    decreases def.indexes.len() - from,
{
    if !(def.indexes[from].columns.len() == 1 && def.indexes[from].columns[0] == c) {
        lemma_index_on(def, c, from + 1);
    }
}

/// A range condition with the column on the right asks for the same rows as the one with the
/// column on the left and the comparison turned; the index that is asked is over that column alone.
pub proof fn ranges_turn_with_their_sides(q: Seq<char>, def: TableDefV, x: ExprV, c: int, k: ExprV, op: BinOp)
    requires
        column_place(q, def, x) == Some(c),
        is_constant(k),
    ensures
        ({
            let (b, d) = (Box::new(x), Box::new(k));
            &&& range_plan(q, def, Some(ExprV::Binary(d, BinOp::Lt, b))) == range_plan(q, def, Some(ExprV::Binary(b, BinOp::Gt, d)))
            &&& range_plan(q, def, Some(ExprV::Binary(d, BinOp::Le, b))) == range_plan(q, def, Some(ExprV::Binary(b, BinOp::Ge, d)))
            &&& range_plan(q, def, Some(ExprV::Binary(d, BinOp::Gt, b))) == range_plan(q, def, Some(ExprV::Binary(b, BinOp::Lt, d)))
            &&& range_plan(q, def, Some(ExprV::Binary(d, BinOp::Ge, b))) == range_plan(q, def, Some(ExprV::Binary(b, BinOp::Le, d)))
        }),
        ({
            let r = range_plan(q, def, Some(ExprV::Binary(Box::new(x), op, Box::new(k))));
            r is Some ==> (r->0).1 == op && (r->0).2 == k && 0 <= (r->0).0 < def.indexes.len() && def.indexes[(r->0).0].columns.len() == 1 && def.indexes[(r->0).0].columns[0] == c
        }),
{
    assert(!is_constant(x));
    assert(column_place(q, def, k) is None) by {
        assert(!(k is Column));
    }
    if index_on(def.indexes, c, 0) is Some {
        lemma_index_on(def, c, 0);
    }
}

/// `>` and `>=` ask for the rows from the constant on, `<` and `<=` for those up to it; the
/// constant itself is asked for where the comparison has an equals sign.
pub proof fn ranges_start_or_end_at_the_constant(env: EnvV, def: TableDefV, i: int, e: ExprV, params: Seq<ValueV>, v: ValueV, x: ValueV)
    requires
        value_of(env, e, None, params) == Ok::<ValueV, ErrorV>(v),
        !(v is Null),
        coerced(env, v, def.columns[def.indexes[i].columns[0] as int].col_type) == Ok::<Option<ValueV>, ErrorV>(Some(x)),
    ensures
        range_access(env, def, i, BinOp::Gt, e, params) == Ok::<AccessV, ErrorV>(AccessV::From(i, x, false)),
        range_access(env, def, i, BinOp::Ge, e, params) == Ok::<AccessV, ErrorV>(AccessV::From(i, x, true)),
        range_access(env, def, i, BinOp::Lt, e, params) == Ok::<AccessV, ErrorV>(AccessV::UpTo(i, x, false)),
        range_access(env, def, i, BinOp::Le, e, params) == Ok::<AccessV, ErrorV>(AccessV::UpTo(i, x, true)),
{
}

// --- what is reached ---

/// The store knows every identifier of a list: `some` says which have a row.
pub open spec fn rows_known<S: DataSource>(src: S, def: TableDefV, ids: Seq<i64>, rows: Seq<Seq<ValueV>>, some: spec_fn(int) -> bool) -> bool {
    &&& rows.len() == ids.len()
    &&& forall|i: int|
        0 <= i < ids.len() ==> src.row_of(def, #[trigger] ids[i]) == Ok::<Option<Seq<ValueV>>, ErrorV>(
            if some(i) {
                Some(rows[i])
            } else {
                None
            },
        )
}

proof fn lemma_rows_with<S: DataSource>(src: S, def: TableDefV, ids: Seq<i64>, rows: Seq<Seq<ValueV>>, some: spec_fn(int) -> bool, from: int) -> (at: Seq<int>)
    requires
        0 <= from <= ids.len(),
        rows_known(src, def, ids, rows, some),
    ensures
        keeps_from(at, from, ids.len() as int, some),
        rows_with(src, def, ids, from) == Ok::<Seq<Seq<ValueV>>, ErrorV>(Seq::new(at.len(), |t: int| rows[at[t]])),
    decreases ids.len() - from,
{
    if from == ids.len() {
        let at = Seq::<int>::empty();
        assert(Seq::new(at.len(), |t: int| rows[at[t]]) =~= Seq::<Seq<ValueV>>::empty());
        at
    } else {
        let rest = lemma_rows_with(src, def, ids, rows, some, from + 1);
        let at = lemma_keeps_step(rest, from, ids.len() as int, some);
        let here = src.row_of(def, ids[from]);
        assert(rows_with(src, def, ids, from)->Ok_0 =~= Seq::new(at.len(), |t: int| rows[at[t]]));
        at
    }
}

/// The identifiers that an index gives lead to their rows, in the order of the identifiers; one
/// without a row is passed over. The index is asked with what the access holds.
pub proof fn indexes_lead_to_their_rows<S: DataSource>(src: S, def: TableDefV, a: AccessV, ids: Seq<i64>, rows: Seq<Seq<ValueV>>, some: spec_fn(int) -> bool) -> (at: Seq<int>)
    requires
        rows_known(src, def, ids, rows, some),
        match a {
            AccessV::Equal(i, vs) => src.equal_ids(def, def.indexes[i], vs) == Ok::<Seq<i64>, ErrorV>(ids),
            AccessV::From(i, v, inclusive) => src.range_ids(def, def.indexes[i], Some((v, inclusive)), None) == Ok::<Seq<i64>, ErrorV>(ids),
            AccessV::UpTo(i, v, inclusive) => src.range_ids(def, def.indexes[i], None, Some((v, inclusive))) == Ok::<Seq<i64>, ErrorV>(ids),
            AccessV::Matching(i, query) => src.matching_ids(def, def.fts_indexes[i], query) == Ok::<Seq<i64>, ErrorV>(ids),
            AccessV::Near(i, v, nprobe, limit) => src.near_ids(def.vector_indexes[i], v, nprobe, limit) == Ok::<Seq<i64>, ErrorV>(ids),
            AccessV::Nearest(c, v, metric, k) => src.nearest_ids(def, c, v, metric, k) == Ok::<Seq<i64>, ErrorV>(ids),
            _ => false,
        },
    ensures
        keeps(at, ids.len() as int, some),
        reached(src, def, a) is Ok,
        reached(src, def, a)->Ok_0.len() == at.len(),
        forall|t: int| 0 <= t < at.len() ==> #[trigger] reached(src, def, a)->Ok_0[t] == rows[at[t]],
{
    lemma_rows_with(src, def, ids, rows, some, 0)
}

// --- MATCH and distances ---

proof fn lemma_match_in(e: ExprV)
    requires
        match_in(e) is Some,
    ensures
        match_in(e)->0 is Match,
        conjuncts(e).contains(match_in(e)->0),
    decreases e,
{
    match e {
        ExprV::Binary(a, BinOp::And, b) => {
            let (x, y) = (conjuncts(*a), conjuncts(*b));
            if match_in(*a) is Some {
                lemma_match_in(*a);
                let i = choose|i: int| 0 <= i < x.len() && x[i] == match_in(*a)->0;
                assert((x + y)[i] == match_in(*a)->0);
            } else {
                lemma_match_in(*b);
                let i = choose|i: int| 0 <= i < y.len() && y[i] == match_in(*b)->0;
                assert((x + y)[x.len() + i] == match_in(*b)->0);
            }
        },
        _ => {
            assert(conjuncts(e)[0] == e);
        },
    }
}

/// A full-text index is asked only where the condition cannot hold unless a `MATCH` that is not
/// negated does.
pub proof fn full_text_indexes_answer_matches(env: EnvV, def: TableDefV, cond: ExprV, params: Seq<ValueV>) -> (m: ExprV)
    requires
        match_access(env, def, Some(cond), params) is Ok,
        match_access(env, def, Some(cond), params)->Ok_0 is Some,
    ensures
        conjuncts(cond).contains(m),
        m is Match,
        !m->Match_negated,
        *m->column is Column,
        (match_access(env, def, Some(cond), params)->Ok_0)->0 is Matching,
        value_of(env, *m->Match_query, None, params) is Ok,
{
    lemma_match_in(cond);
    match_in(cond)->0
}

/// Only the nearest rows are read only where a SELECT has no condition, sorts by one distance alone,
/// ascending, and has a limit; exactly as many as the limit are asked for where nothing else
/// changes the number of rows.
pub proof fn nearest_rows_are_asked_for_by_distance(env: EnvV, def: TableDefV, stmt: SelectStmtV, params: Seq<ValueV>, n: i64)
    requires
        stmt.limit is Some ==> value_of(branch(branch(env, 27), 1), stmt.limit->0, None, params) == Ok::<ValueV, ErrorV>(ValueV::Integer(n)),
        0 <= n <= usize::MAX,
    ensures
        ({
            let a = nearest_access(branch(env, 27), def, stmt, params);
            a is Ok && a->Ok_0 is Some ==> {
                &&& stmt.where_clause is None
                &&& stmt.limit is Some
                &&& stmt.order_by.len() == 1
                &&& !stmt.order_by[0].desc
                &&& stmt.order_by[0].expr is Function
                &&& stmt.joins.len() == 0
                &&& stmt.group_by.len() == 0
                &&& !stmt.distinct
                &&& stmt.offset is None
                &&& stmt.compound.len() == 0
                &&& (a->Ok_0)->0 is Nearest
                &&& (a->Ok_0)->0->Nearest_3 == n
            }
        }),
{
}

/// A vector index is asked for no fewer candidates than the rows that are wanted.
pub proof fn shortlists_are_long_enough(k: usize)
    ensures
        shortlist(k) >= k,
        shortlist(k) >= 64,
        k < shortlist(k) || k == usize::MAX,
{
}

// --- which way is chosen ---

/// A way to the rows is one that the condition asks for: the row with the identifier that it
/// equates, the rows with the keys that it equates, or the rows of a range that it gives.
pub open spec fn asked_for(q: Seq<char>, def: TableDefV, cond: Option<ExprV>, a: AccessV) -> bool {
    match a {
        AccessV::One(_) => point_key(q, def, cond) is Some,
        AccessV::Equal(i, vs) => equal_plan(q, def, cond) is Some && (equal_plan(q, def, cond)->0).0 == i,
        AccessV::From(i, _, inclusive) => range_plan(q, def, cond) is Some && (range_plan(q, def, cond)->0).0 == i && (range_plan(q, def, cond)->0).1 == (if inclusive {
            BinOp::Ge
        } else {
            BinOp::Gt
        }),
        AccessV::UpTo(i, _, inclusive) => range_plan(q, def, cond) is Some && (range_plan(q, def, cond)->0).0 == i && (range_plan(q, def, cond)->0).1 == (if inclusive {
            BinOp::Le
        } else {
            BinOp::Lt
        }),
        AccessV::Matching(_, _) => cond is Some && match_in(cond->0) is Some,
        _ => true,
    }
}

/// The rows that an UPDATE or a DELETE looks at are reached by a way that its condition asks for;
/// nearness does not count.
pub proof fn writes_look_where_the_condition_says(env: EnvV, q: Seq<char>, def: TableDefV, cond: Option<ExprV>, params: Seq<ValueV>)
    requires
        candidates(env, q, def, cond, params) is Ok,
    ensures
        asked_for(q, def, cond, candidates(env, q, def, cond, params)->Ok_0),
        !(candidates(env, q, def, cond, params)->Ok_0 is Near),
        !(candidates(env, q, def, cond, params)->Ok_0 is Nearest),
        cond is None ==> candidates(env, q, def, cond, params)->Ok_0 is Scan,
{
}

/// The rows that a SELECT on one table looks at are reached by a way that its condition asks for.
pub proof fn selects_look_where_the_condition_says(env: EnvV, q: Seq<char>, def: TableDefV, stmt: SelectStmtV, params: Seq<ValueV>)
    requires
        access(env, q, def, stmt, params) is Ok,
    ensures
        asked_for(q, def, stmt.where_clause, access(env, q, def, stmt, params)->Ok_0),
        stmt.where_clause is Some ==> !(access(env, q, def, stmt, params)->Ok_0 is Near) && !(access(env, q, def, stmt, params)->Ok_0 is Nearest),
        stmt.where_clause is None && stmt.limit is None ==> access(env, q, def, stmt, params)->Ok_0 is Scan,
{
}

} // verus!
