//! What a SELECT is for: which rows it keeps, how it joins them, and what it shows of them.
#[allow(unused_imports)]
use vstd::prelude::*;

#[allow(unused_imports)]
use crate::error::ErrorV;
#[allow(unused_imports)]
use crate::exec::aggregate::{aggregate_value, with_aggregates};
#[allow(unused_imports)]
use crate::exec::eval::value_of;
#[allow(unused_imports)]
use crate::exec::joins::{joined, nulls, partners, passes, passing};
#[allow(unused_imports)]
use crate::exec::ops::{branch, truth, EnvV};
#[allow(unused_imports)]
use crate::exec::output::{group_rows, group_value, group_values, rows_at, SelectOutV};
#[allow(unused_imports)]
use crate::exec::row_laws::{keeps, keeps_from, lemma_keeps_step};
#[allow(unused_imports)]
use crate::exec::rows::{distinct_rows, distinct_rows_differ, rows_equal};
#[allow(unused_imports)]
use crate::exec::schema::SchemaV;
#[allow(unused_imports)]
use crate::exec::select::{
    absent, answered, combined, compound_rows, list_of, present, projected, projected_row, ready, row_value, scalar_of,
    where_rows, PassV, Runner,
};
#[allow(unused_imports)]
use crate::exec::source::CteEntryV;
#[allow(unused_imports)]
use crate::record::ValueV;
#[allow(unused_imports)]
use crate::sql::ast::{AggFunc, CompoundSelectV, ExprV, JoinKind, SelectItemV, SelectStmtV, SetOp};

verus! {

// --- WHERE ---

/// The condition has a truth value on every row: true exactly where `yes` says so.
pub open spec fn decided(env: EnvV, run: Runner, ctes: Seq<CteEntryV>, cond: ExprV, s: SchemaV, rows: Seq<Seq<ValueV>>, params: Seq<ValueV>, yes: spec_fn(int) -> bool) -> bool {
    forall|i: int|
        0 <= i < rows.len() ==> {
            let v = #[trigger] row_value(branch(env, i), run, ctes, cond, s, rows[i], params);
            ||| v == Ok::<ValueV, ErrorV>(ValueV::Bool(yes(i)))
            ||| v == Ok::<ValueV, ErrorV>(ValueV::Null) && !yes(i)
        }
}

proof fn lemma_where(env: EnvV, run: Runner, ctes: Seq<CteEntryV>, cond: ExprV, s: SchemaV, rows: Seq<Seq<ValueV>>, params: Seq<ValueV>, yes: spec_fn(int) -> bool, from: int) -> (at: Seq<int>)
    requires
        0 <= from <= rows.len(),
        decided(env, run, ctes, cond, s, rows, params, yes),
    ensures
        keeps_from(at, from, rows.len() as int, yes),
        where_rows(env, run, ctes, cond, s, rows, params, from) == Ok::<Seq<Seq<ValueV>>, ErrorV>(Seq::new(at.len(), |t: int| rows[at[t]])),
    decreases rows.len() - from,
{
    if from == rows.len() {
        let at = Seq::<int>::empty();
        assert(Seq::new(at.len(), |t: int| rows[at[t]]) =~= Seq::<Seq<ValueV>>::empty());
        at
    } else {
        let rest = lemma_where(env, run, ctes, cond, s, rows, params, yes, from + 1);
        let at = lemma_keeps_step(rest, from, rows.len() as int, yes);
        let v = row_value(branch(env, from), run, ctes, cond, s, rows[from], params);
        assert(v == Ok::<ValueV, ErrorV>(ValueV::Bool(yes(from))) || v == Ok::<ValueV, ErrorV>(ValueV::Null) && !yes(from));
        let tail = Seq::new(rest.len(), |t: int| rows[rest[t]]);
        if yes(from) {
            assert(Seq::new(at.len(), |t: int| rows[at[t]]) =~= seq![rows[from]] + tail);
        } else {
            assert(Seq::new(at.len(), |t: int| rows[at[t]]) =~= tail);
        }
        at
    }
}

/// WHERE keeps exactly the rows on which its condition is true, in their order; one that is
/// unknown is not kept.
pub proof fn where_keeps_what_is_true(env: EnvV, run: Runner, ctes: Seq<CteEntryV>, cond: ExprV, s: SchemaV, rows: Seq<Seq<ValueV>>, params: Seq<ValueV>, yes: spec_fn(int) -> bool) -> (at: Seq<int>)
    requires
        decided(env, run, ctes, cond, s, rows, params, yes),
    ensures
        keeps(at, rows.len() as int, yes),
        where_rows(env, run, ctes, cond, s, rows, params, 0) == Ok::<Seq<Seq<ValueV>>, ErrorV>(Seq::new(at.len(), |t: int| rows[at[t]])),
{
    lemma_where(env, run, ctes, cond, s, rows, params, yes, 0)
}

proof fn lemma_passing(env: EnvV, cs: Seq<ExprV>, s: SchemaV, rows: Seq<Seq<ValueV>>, params: Seq<ValueV>, yes: spec_fn(int) -> bool, from: int) -> (at: Seq<int>)
    requires
        0 <= from <= rows.len(),
        forall|i: int| 0 <= i < rows.len() ==> #[trigger] passes(branch(env, i), cs, s, rows[i], params) == Ok::<bool, ErrorV>(yes(i)),
    ensures
        keeps_from(at, from, rows.len() as int, yes),
        passing(env, cs, s, rows, params, from) == Ok::<Seq<Seq<ValueV>>, ErrorV>(Seq::new(at.len(), |t: int| rows[at[t]])),
    decreases rows.len() - from,
{
    if from == rows.len() {
        let at = Seq::<int>::empty();
        assert(Seq::new(at.len(), |t: int| rows[at[t]]) =~= Seq::<Seq<ValueV>>::empty());
        at
    } else {
        let rest = lemma_passing(env, cs, s, rows, params, yes, from + 1);
        let at = lemma_keeps_step(rest, from, rows.len() as int, yes);
        assert(passes(branch(env, from), cs, s, rows[from], params) == Ok::<bool, ErrorV>(yes(from)));
        let tail = Seq::new(rest.len(), |t: int| rows[rest[t]]);
        if yes(from) {
            assert(Seq::new(at.len(), |t: int| rows[at[t]]) =~= seq![rows[from]] + tail);
        } else {
            assert(Seq::new(at.len(), |t: int| rows[at[t]]) =~= tail);
        }
        at
    }
}

/// The conditions that a table is filtered by before it is joined keep exactly the rows on which
/// all of them are true: one that is false or unknown drops the row.
pub proof fn own_conditions_keep_what_is_true(env: EnvV, cs: Seq<ExprV>, s: SchemaV, rows: Seq<Seq<ValueV>>, params: Seq<ValueV>, row: Seq<ValueV>, vals: Seq<ValueV>, yes: spec_fn(int) -> bool) -> (at: Seq<int>)
    requires
        forall|i: int| 0 <= i < rows.len() ==> #[trigger] passes(branch(env, i), cs, s, rows[i], params) == Ok::<bool, ErrorV>(yes(i)),
        vals.len() == cs.len(),
        forall|c: int| 0 <= c < cs.len() ==> value_of(branch(env, cs.len() - c), cs[c], Some((s, row)), params) == Ok::<ValueV, ErrorV>(#[trigger] vals[c]) && (vals[c] is Bool || vals[c] is Null),
    ensures
        keeps(at, rows.len() as int, yes),
        passing(env, cs, s, rows, params, 0) == Ok::<Seq<Seq<ValueV>>, ErrorV>(Seq::new(at.len(), |t: int| rows[at[t]])),
        passes(env, cs, s, row, params) == Ok::<bool, ErrorV>(forall|c: int| 0 <= c < cs.len() ==> #[trigger] vals[c] == ValueV::Bool(true)),
{
    lemma_passes(env, cs, s, row, params, vals);
    lemma_passing(env, cs, s, rows, params, yes, 0)
}

proof fn lemma_passes(env: EnvV, cs: Seq<ExprV>, s: SchemaV, row: Seq<ValueV>, params: Seq<ValueV>, vals: Seq<ValueV>)
    requires
        vals.len() == cs.len(),
        forall|c: int| 0 <= c < cs.len() ==> value_of(branch(env, cs.len() - c), cs[c], Some((s, row)), params) == Ok::<ValueV, ErrorV>(#[trigger] vals[c]) && (vals[c] is Bool || vals[c] is Null),
    ensures
        passes(env, cs, s, row, params) == Ok::<bool, ErrorV>(forall|c: int| 0 <= c < cs.len() ==> #[trigger] vals[c] == ValueV::Bool(true)),
    decreases cs.len(),
{
    if cs.len() > 0 {
        let rest = vals.drop_first();
        assert(vals[0] is Bool || vals[0] is Null);
        assert forall|c: int| 0 <= c < cs.drop_first().len() implies value_of(branch(env, cs.drop_first().len() - c), cs.drop_first()[c], Some((s, row)), params) == Ok::<ValueV, ErrorV>(#[trigger] rest[c]) && (rest[c] is Bool || rest[c] is Null) by {
            assert(rest[c] == vals[c + 1]);
        }
        lemma_passes(env, cs.drop_first(), s, row, params, rest);
        let all = forall|c: int| 0 <= c < cs.len() ==> #[trigger] vals[c] == ValueV::Bool(true);
        let more = forall|c: int| 0 <= c < rest.len() ==> #[trigger] rest[c] == ValueV::Bool(true);
        if vals[0] == ValueV::Bool(true) && more {
            assert forall|c: int| 0 <= c < cs.len() implies #[trigger] vals[c] == ValueV::Bool(true) by {
                if c > 0 {
                    assert(rest[c - 1] == vals[c]);
                }
            }
        }
        if all {
            assert forall|c: int| 0 <= c < rest.len() implies #[trigger] rest[c] == ValueV::Bool(true) by {
                assert(rest[c] == vals[c + 1]);
            }
        }
    }
}

// --- joins ---

/// The condition of a join has a truth value on every pair, true exactly where `hit` says so.
pub open spec fn pairs_decided(env: EnvV, left: Seq<Seq<ValueV>>, right: Seq<Seq<ValueV>>, on: ExprV, s: SchemaV, params: Seq<ValueV>, hit: spec_fn(int, int) -> bool) -> bool {
    forall|i: int, j: int|
        0 <= i < left.len() && 0 <= j < right.len() ==> {
            let v = value_of(#[trigger] branch(branch(env, i), j), on, Some((s, left[i] + right[j])), params);
            ||| v == Ok::<ValueV, ErrorV>(ValueV::Bool(hit(i, j)))
            ||| v == Ok::<ValueV, ErrorV>(ValueV::Null) && !hit(i, j)
        }
}

proof fn lemma_partners(env: EnvV, left: Seq<ValueV>, right: Seq<Seq<ValueV>>, on: ExprV, s: SchemaV, params: Seq<ValueV>, yes: spec_fn(int) -> bool, from: int) -> (at: Seq<int>)
    requires
        0 <= from <= right.len(),
        forall|j: int|
            0 <= j < right.len() ==> {
                let v = value_of(#[trigger] branch(env, j), on, Some((s, left + right[j])), params);
                ||| v == Ok::<ValueV, ErrorV>(ValueV::Bool(yes(j)))
                ||| v == Ok::<ValueV, ErrorV>(ValueV::Null) && !yes(j)
            },
    ensures
        keeps_from(at, from, right.len() as int, yes),
        partners(env, left, right, on, s, params, from) == Ok::<Seq<Seq<ValueV>>, ErrorV>(Seq::new(at.len(), |t: int| left + right[at[t]])),
    decreases right.len() - from,
{
    if from == right.len() {
        let at = Seq::<int>::empty();
        assert(Seq::new(at.len(), |t: int| left + right[at[t]]) =~= Seq::<Seq<ValueV>>::empty());
        at
    } else {
        let rest = lemma_partners(env, left, right, on, s, params, yes, from + 1);
        let at = lemma_keeps_step(rest, from, right.len() as int, yes);
        let v = value_of(branch(env, from), on, Some((s, left + right[from])), params);
        assert(v == Ok::<ValueV, ErrorV>(ValueV::Bool(yes(from))) || v == Ok::<ValueV, ErrorV>(ValueV::Null) && !yes(from));
        let tail = Seq::new(rest.len(), |t: int| left + right[rest[t]]);
        if yes(from) {
            assert(Seq::new(at.len(), |t: int| left + right[at[t]]) =~= seq![left + right[from]] + tail);
        } else {
            assert(Seq::new(at.len(), |t: int| left + right[at[t]]) =~= tail);
        }
        at
    }
}

/// A row of a join: left row `i` with right row `j`, or with NULLs where `j` is negative.
pub open spec fn pair_row(left: Seq<Seq<ValueV>>, right: Seq<Seq<ValueV>>, width: nat, p: (int, int)) -> Seq<ValueV> {
    left[p.0] + (if p.1 < 0 {
        Seq::new(width, |k: int| ValueV::Null)
    } else {
        right[p.1]
    })
}

/// The pairs that a join makes of the left rows from `from` on: those that satisfy its condition,
/// and in a left join each left row that has no partner, alone; in the order of the left rows and,
/// for each, of the right rows.
pub open spec fn pairs_from(at: Seq<(int, int)>, from: int, n: int, m: int, kind: JoinKind, hit: spec_fn(int, int) -> bool) -> bool {
    &&& forall|t: int|
        0 <= t < at.len() ==> {
            let p = #[trigger] at[t];
            &&& from <= p.0 < n
            &&& p.1 < m
            &&& p.1 >= 0 ==> hit(p.0, p.1)
            &&& p.1 < 0 ==> kind == JoinKind::Left && p.1 == -1 && forall|j: int| 0 <= j < m ==> !#[trigger] hit(p.0, j)
        }
    &&& forall|t: int, u: int| 0 <= t < u < at.len() ==> (#[trigger] at[t]).0 < (#[trigger] at[u]).0 || at[t].0 == at[u].0 && at[t].1 < at[u].1
    &&& forall|i: int, j: int| from <= i < n && 0 <= j < m && #[trigger] hit(i, j) ==> at.contains((i, j))
    &&& forall|i: int| from <= i < n && kind == JoinKind::Left && (forall|j: int| 0 <= j < m ==> !#[trigger] hit(i, j)) ==> #[trigger] at.contains((i, -1int))
}

#[verifier::spinoff_prover]
proof fn lemma_joined(env: EnvV, left: Seq<Seq<ValueV>>, right: Seq<Seq<ValueV>>, kind: JoinKind, on: ExprV, s: SchemaV, width: nat, params: Seq<ValueV>, hit: spec_fn(int, int) -> bool, from: int) -> (at: Seq<(int, int)>)
    requires
        0 <= from <= left.len(),
        pairs_decided(env, left, right, on, s, params, hit),
    ensures
        pairs_from(at, from, left.len() as int, right.len() as int, kind, hit),
        joined(env, left, right, kind, on, s, width, params, from) == Ok::<Seq<Seq<ValueV>>, ErrorV>(Seq::new(at.len(), |t: int| pair_row(left, right, width, at[t]))),
    decreases left.len() - from,
{
    let n = left.len() as int;
    let m = right.len() as int;
    if from == left.len() {
        let at = Seq::<(int, int)>::empty();
        assert(Seq::new(at.len(), |t: int| pair_row(left, right, width, at[t])) =~= Seq::<Seq<ValueV>>::empty());
        at
    } else {
        let rest = lemma_joined(env, left, right, kind, on, s, width, params, hit, from + 1);
        let yes = |j: int| hit(from, j);
        assert forall|j: int| 0 <= j < right.len() implies {
            let v = value_of(#[trigger] branch(branch(env, from), j), on, Some((s, left[from] + right[j])), params);
            ||| v == Ok::<ValueV, ErrorV>(ValueV::Bool(yes(j)))
            ||| v == Ok::<ValueV, ErrorV>(ValueV::Null) && !yes(j)
        } by {
            assert(yes(j) == hit(from, j));
        }
        let js = lemma_partners(branch(env, from), left[from], right, on, s, params, yes, 0);
        let mine = if js.len() == 0 && kind == JoinKind::Left {
            seq![(from, -1int)]
        } else {
            Seq::new(js.len(), |t: int| (from, js[t]))
        };
        let at = mine + rest;
        let tail = Seq::new(rest.len(), |t: int| pair_row(left, right, width, rest[t]));
        let head = Seq::new(mine.len(), |t: int| pair_row(left, right, width, mine[t]));
        assert(Seq::new(at.len(), |t: int| pair_row(left, right, width, at[t])) =~= head + tail);
        if js.len() == 0 && kind == JoinKind::Left {
            assert(nulls(width) =~= Seq::new(width, |k: int| ValueV::Null));
            assert(head =~= seq![left[from] + nulls(width)]);
        } else {
            assert(head =~= Seq::new(js.len(), |t: int| left[from] + right[js[t]]));
        }
        assert forall|t: int| 0 <= t < mine.len() implies ({
            let p = #[trigger] mine[t];
            &&& p.0 == from
            &&& p.1 < m
            &&& p.1 >= 0 ==> hit(p.0, p.1)
            &&& p.1 < 0 ==> kind == JoinKind::Left && p.1 == -1 && forall|j: int| 0 <= j < m ==> !#[trigger] hit(p.0, j)
        }) by {
            if js.len() == 0 && kind == JoinKind::Left {
                assert forall|j: int| 0 <= j < m implies !#[trigger] hit(from, j) by {
                    if hit(from, j) {
                        assert(yes(j));
                        assert(js.contains(j));
                    }
                }
            } else {
                assert(yes(js[t]));
            }
        }
        assert forall|t: int| 0 <= t < at.len() implies ({
            let p = #[trigger] at[t];
            &&& from <= p.0 < n
            &&& p.1 < m
            &&& p.1 >= 0 ==> hit(p.0, p.1)
            &&& p.1 < 0 ==> kind == JoinKind::Left && p.1 == -1 && forall|j: int| 0 <= j < m ==> !#[trigger] hit(p.0, j)
        }) by {
            if t < mine.len() {
                assert(at[t] == mine[t]);
            } else {
                assert(at[t] == rest[t - mine.len()]);
            }
        }
        assert forall|t: int, u: int| 0 <= t < u < at.len() implies (#[trigger] at[t]).0 < (#[trigger] at[u]).0 || at[t].0 == at[u].0 && at[t].1 < at[u].1 by {
            if u < mine.len() {
                assert(at[t] == mine[t] && at[u] == mine[u]);
                assert(js[t] < js[u]);
            } else if t >= mine.len() {
                assert(at[t] == rest[t - mine.len()] && at[u] == rest[u - mine.len()]);
            } else {
                assert(at[t] == mine[t] && at[u] == rest[u - mine.len()]);
            }
        }
        assert forall|i: int, j: int| from <= i < n && 0 <= j < m && #[trigger] hit(i, j) implies at.contains((i, j)) by {
            if i == from {
                assert(yes(j));
                assert(js.contains(j));
                let t = choose|t: int| 0 <= t < js.len() && js[t] == j;
                assert(mine[t] == (from, j));
                assert(at[t] == (i, j));
            } else {
                assert(rest.contains((i, j)));
                let t = choose|t: int| 0 <= t < rest.len() && rest[t] == (i, j);
                assert(at[t + mine.len()] == (i, j));
            }
        }
        assert forall|i: int| from <= i < n && kind == JoinKind::Left && (forall|j: int| 0 <= j < m ==> !#[trigger] hit(i, j)) implies #[trigger] at.contains((i, -1int)) by {
            if i == from {
                if js.len() > 0 {
                    assert(yes(js[0]));
                    assert(hit(from, js[0]));
                }
                assert(at[0] == (i, -1int));
            } else {
                assert(rest.contains((i, -1int)));
                let t = choose|t: int| 0 <= t < rest.len() && rest[t] == (i, -1int);
                assert(at[t + mine.len()] == (i, -1int));
            }
        }
        at
    }
}

/// A join gives the pairs of left and right rows on which its condition is true, each once. A
/// left join also gives each left row without a partner, once, with NULLs for the right one; an
/// inner join leaves such a row out. The left rows lead the order.
pub proof fn joins_pair_rows(env: EnvV, left: Seq<Seq<ValueV>>, right: Seq<Seq<ValueV>>, kind: JoinKind, on: ExprV, s: SchemaV, width: nat, params: Seq<ValueV>, hit: spec_fn(int, int) -> bool) -> (at: Seq<(int, int)>)
    requires
        pairs_decided(env, left, right, on, s, params, hit),
    ensures
        pairs_from(at, 0, left.len() as int, right.len() as int, kind, hit),
        joined(env, left, right, kind, on, s, width, params, 0) == Ok::<Seq<Seq<ValueV>>, ErrorV>(Seq::new(at.len(), |t: int| pair_row(left, right, width, at[t]))),
{
    lemma_joined(env, left, right, kind, on, s, width, params, hit, 0)
}

// --- what is shown ---

/// The value of every item of a projection, for a projection of expressions.
proof fn lemma_projected_row(env: EnvV, run: Runner, ctes: Seq<CteEntryV>, items: Seq<SelectItemV>, s: SchemaV, row: Seq<ValueV>, params: Seq<ValueV>, from: int)
    requires
        0 <= from <= items.len(),
        forall|j: int| 0 <= j < items.len() ==> (#[trigger] items[j]) is Expr,
        projected_row(env, run, ctes, items, s, row, params, from) is Ok,
    ensures
        ({
            let out = projected_row(env, run, ctes, items, s, row, params, from)->Ok_0;
            &&& out.len() == items.len() - from
            &&& forall|j: int| from <= j < items.len() ==> row_value(branch(env, j), run, ctes, (#[trigger] items[j])->expr, s, row, params) == Ok::<ValueV, ErrorV>(out[j - from])
        }),
    decreases items.len() - from,
{
    if from < items.len() {
        assert(items[from] is Expr);
        lemma_projected_row(env, run, ctes, items, s, row, params, from + 1);
    }
}

proof fn lemma_projected(env: EnvV, run: Runner, ctes: Seq<CteEntryV>, items: Seq<SelectItemV>, s: SchemaV, rows: Seq<Seq<ValueV>>, params: Seq<ValueV>, from: int)
    requires
        0 <= from <= rows.len(),
        projected(env, run, ctes, items, s, rows, params, from) is Ok,
    ensures
        ({
            let out = projected(env, run, ctes, items, s, rows, params, from)->Ok_0;
            &&& out.len() == rows.len() - from
            &&& forall|i: int| from <= i < rows.len() ==> #[trigger] projected_row(branch(env, i), run, ctes, items, s, rows[i], params, 0) == Ok::<Seq<ValueV>, ErrorV>(out[i - from])
        }),
    decreases rows.len() - from,
{
    if from < rows.len() {
        lemma_projected(env, run, ctes, items, s, rows, params, from + 1);
    }
}

/// A projection gives one output row for each row, in their order, with the value of the `j`-th
/// item on that row in its `j`-th column.
pub proof fn projection_shows_each_item(env: EnvV, run: Runner, ctes: Seq<CteEntryV>, items: Seq<SelectItemV>, s: SchemaV, rows: Seq<Seq<ValueV>>, params: Seq<ValueV>)
    requires
        forall|j: int| 0 <= j < items.len() ==> (#[trigger] items[j]) is Expr,
        projected(env, run, ctes, items, s, rows, params, 0) is Ok,
    ensures
        ({
            let out = projected(env, run, ctes, items, s, rows, params, 0)->Ok_0;
            &&& out.len() == rows.len()
            &&& forall|i: int| 0 <= i < rows.len() ==> (#[trigger] out[i]).len() == items.len()
            &&& forall|i: int, j: int| 0 <= i < rows.len() && 0 <= j < items.len() ==> row_value(branch(branch(env, i), j), run, ctes, (#[trigger] items[j])->expr, s, rows[i], params) == Ok::<ValueV, ErrorV>(#[trigger] out[i][j])
        }),
{
    lemma_projected(env, run, ctes, items, s, rows, params, 0);
    let out = projected(env, run, ctes, items, s, rows, params, 0)->Ok_0;
    assert forall|i: int| 0 <= i < rows.len() implies (#[trigger] out[i]).len() == items.len() && forall|j: int| 0 <= j < items.len() ==> row_value(branch(branch(env, i), j), run, ctes, (#[trigger] items[j])->expr, s, rows[i], params) == Ok::<ValueV, ErrorV>(out[i][j]) by {
        assert(projected_row(branch(env, i), run, ctes, items, s, rows[i], params, 0) == Ok::<Seq<ValueV>, ErrorV>(out[i]));
        lemma_projected_row(branch(env, i), run, ctes, items, s, rows[i], params, 0);
    }
}

// --- GROUP BY and HAVING ---

/// HAVING keeps a group exactly where its condition is true of it.
pub open spec fn groups_decided(env: EnvV, having: Option<ExprV>, s: SchemaV, rows: Seq<Seq<ValueV>>, params: Seq<ValueV>, groups: Seq<Seq<usize>>, yes: spec_fn(int) -> bool) -> bool {
    forall|g: int|
        0 <= g < groups.len() ==> match having {
            None => #[trigger] yes(g),
            Some(h) => {
                let v = group_value(branch(branch(env, g), 0), h, s, rows_at(rows, groups[g]), params);
                ||| v == Ok::<ValueV, ErrorV>(ValueV::Bool(yes(g)))
                ||| v == Ok::<ValueV, ErrorV>(ValueV::Null) && !yes(g)
            },
        }
}

proof fn lemma_group_values(env: EnvV, items: Seq<SelectItemV>, s: SchemaV, group: Seq<Seq<ValueV>>, params: Seq<ValueV>, from: int)
    requires
        0 <= from <= items.len(),
        group_values(env, items, s, group, params, from) is Ok,
    ensures
        ({
            let out = group_values(env, items, s, group, params, from)->Ok_0;
            &&& out.len() == items.len() - from
            &&& forall|j: int| from <= j < items.len() ==> group_value(branch(env, j), (#[trigger] items[j])->expr, s, group, params) == Ok::<ValueV, ErrorV>(out[j - from])
        }),
    decreases items.len() - from,
{
    if from < items.len() {
        lemma_group_values(env, items, s, group, params, from + 1);
    }
}

proof fn lemma_group_rows(env: EnvV, items: Seq<SelectItemV>, having: Option<ExprV>, s: SchemaV, rows: Seq<Seq<ValueV>>, params: Seq<ValueV>, groups: Seq<Seq<usize>>, yes: spec_fn(int) -> bool, from: int) -> (at: Seq<int>)
    requires
        0 <= from <= groups.len(),
        groups_decided(env, having, s, rows, params, groups, yes),
        group_rows(env, items, having, s, rows, params, groups, from) is Ok,
    ensures
        keeps_from(at, from, groups.len() as int, yes),
        ({
            let out = group_rows(env, items, having, s, rows, params, groups, from)->Ok_0;
            &&& out.len() == at.len()
            &&& forall|t: int| 0 <= t < at.len() ==> group_values(branch(branch(env, at[t]), 1), items, s, rows_at(rows, groups[at[t]]), params, 0) == Ok::<Seq<ValueV>, ErrorV>(#[trigger] out[t])
        }),
    decreases groups.len() - from,
{
    if from == groups.len() {
        Seq::empty()
    } else {
        assert(yes(from) || !yes(from));
        let rest = lemma_group_rows(env, items, having, s, rows, params, groups, yes, from + 1);
        let at = lemma_keeps_step(rest, from, groups.len() as int, yes);
        let out = group_rows(env, items, having, s, rows, params, groups, from)->Ok_0;
        let tail = group_rows(env, items, having, s, rows, params, groups, from + 1)->Ok_0;
        assert forall|t: int| 0 <= t < at.len() implies group_values(branch(branch(env, at[t]), 1), items, s, rows_at(rows, groups[at[t]]), params, 0) == Ok::<Seq<ValueV>, ErrorV>(#[trigger] out[t]) by {
            if yes(from) {
                if t > 0 {
                    assert(out[t] == tail[t - 1]);
                    assert(at[t] == rest[t - 1]);
                }
            } else {
                assert(out[t] == tail[t]);
            }
        }
        at
    }
}

/// A row shows the items for a group of rows: the `j`-th column is the `j`-th item.
pub open spec fn shows(env: EnvV, items: Seq<SelectItemV>, s: SchemaV, group: Seq<Seq<ValueV>>, params: Seq<ValueV>, row: Seq<ValueV>) -> bool {
    row.len() == items.len() && forall|j: int| 0 <= j < items.len() ==> group_value(branch(env, j), (#[trigger] items[j])->expr, s, group, params) == Ok::<ValueV, ErrorV>(row[j])
}

proof fn lemma_shows(env: EnvV, items: Seq<SelectItemV>, s: SchemaV, group: Seq<Seq<ValueV>>, params: Seq<ValueV>, row: Seq<ValueV>)
    requires
        group_values(env, items, s, group, params, 0) == Ok::<Seq<ValueV>, ErrorV>(row),
    ensures
        shows(env, items, s, group, params, row),
{
    lemma_group_values(env, items, s, group, params, 0);
}

/// GROUP BY gives one row for each group of which HAVING is true, in the order of the groups. It
/// shows the items for the rows of that very group.
pub proof fn groups_give_a_row_each(env: EnvV, items: Seq<SelectItemV>, having: Option<ExprV>, s: SchemaV, rows: Seq<Seq<ValueV>>, params: Seq<ValueV>, groups: Seq<Seq<usize>>, yes: spec_fn(int) -> bool) -> (at: Seq<int>)
    requires
        groups_decided(env, having, s, rows, params, groups, yes),
        group_rows(env, items, having, s, rows, params, groups, 0) is Ok,
    ensures
        keeps(at, groups.len() as int, yes),
        ({
            let out = group_rows(env, items, having, s, rows, params, groups, 0)->Ok_0;
            &&& out.len() == at.len()
            &&& forall|t: int| 0 <= t < at.len() ==> shows(branch(branch(env, at[t]), 1), items, s, rows_at(rows, groups[at[t]]), params, #[trigger] out[t])
        }),
{
    let at = lemma_group_rows(env, items, having, s, rows, params, groups, yes, 0);
    let out = group_rows(env, items, having, s, rows, params, groups, 0)->Ok_0;
    assert forall|t: int| 0 <= t < at.len() implies shows(branch(branch(env, at[t]), 1), items, s, rows_at(rows, groups[at[t]]), params, #[trigger] out[t]) by {
        lemma_shows(branch(branch(env, at[t]), 1), items, s, rows_at(rows, groups[at[t]]), params, out[t]);
    }
    at
}

/// An item of a group is the aggregate over all the rows of the group; one without an aggregate
/// is taken on its first row.
pub proof fn group_items_see_their_group(env: EnvV, func: AggFunc, arg: Option<Box<ExprV>>, distinct: bool, sep: Option<Box<ExprV>>, s: SchemaV, group: Seq<Seq<ValueV>>, params: Seq<ValueV>, v: ValueV, table: Option<Seq<char>>, name: Seq<char>)
    ensures
        group_value(env, ExprV::Aggregate { func, arg, distinct, sep }, s, group, params) == aggregate_value(branch(env, 0), func, arg, distinct, sep, s, group, params),
        group_value(env, ExprV::Column { table, name }, s, group, params) == value_of(branch(env, 1), ExprV::Column { table, name }, Some((s, group[0])), params),
        group_value(env, ExprV::Literal(v), s, group, params) == Ok::<ValueV, ErrorV>(v),
{
    reveal_with_fuel(with_aggregates, 2);
    reveal_with_fuel(crate::exec::aggregate::all_with_aggregates, 2);
}

// --- set operators ---

/// UNION ALL puts the rows of the second side behind those of the first; UNION, INTERSECT and
/// EXCEPT leave no two equal rows.
pub proof fn set_operators_repeat_nothing(rows: Seq<Seq<ValueV>>, part: Seq<Seq<ValueV>>)
    ensures
        combined(SetOp::UnionAll, rows, part).len() == rows.len() + part.len(),
        forall|i: int| 0 <= i < rows.len() ==> #[trigger] combined(SetOp::UnionAll, rows, part)[i] == rows[i],
        forall|i: int| rows.len() <= i < rows.len() + part.len() ==> #[trigger] combined(SetOp::UnionAll, rows, part)[i] == part[i - rows.len()],
        forall|i: int, j: int| 0 <= i < j < combined(SetOp::Union, rows, part).len() ==> !rows_equal(#[trigger] combined(SetOp::Union, rows, part)[i], #[trigger] combined(SetOp::Union, rows, part)[j]),
        forall|i: int, j: int| 0 <= i < j < combined(SetOp::Intersect, rows, part).len() ==> !rows_equal(#[trigger] combined(SetOp::Intersect, rows, part)[i], #[trigger] combined(SetOp::Intersect, rows, part)[j]),
        forall|i: int, j: int| 0 <= i < j < combined(SetOp::Except, rows, part).len() ==> !rows_equal(#[trigger] combined(SetOp::Except, rows, part)[i], #[trigger] combined(SetOp::Except, rows, part)[j]),
{
    let u = combined(SetOp::Union, rows, part);
    assert forall|i: int, j: int| 0 <= i < j < u.len() implies !rows_equal(#[trigger] u[i], #[trigger] u[j]) by {
        distinct_rows_differ(rows + part, i, j);
    }
    let d = distinct_rows(rows);
    assert forall|i: int, j: int| 0 <= i < j < d.len() implies !rows_equal(#[trigger] d[i], #[trigger] d[j]) by {
        distinct_rows_differ(rows, i, j);
    }
    lemma_present(d, part);
    lemma_absent(d, part);
}

spec fn all_differ(rows: Seq<Seq<ValueV>>) -> bool {
    forall|i: int, j: int| 0 <= i < j < rows.len() ==> !rows_equal(#[trigger] rows[i], #[trigger] rows[j])
}

proof fn lemma_present(d: Seq<Seq<ValueV>>, from: Seq<Seq<ValueV>>)
    requires
        all_differ(d),
    ensures
        all_differ(present(d, from)),
        forall|i: int| 0 <= i < present(d, from).len() ==> d.contains(#[trigger] present(d, from)[i]),
    decreases d.len(),
{
    if d.len() > 0 {
        assert(all_differ(d.drop_last()));
        lemma_present(d.drop_last(), from);
        let p = present(d.drop_last(), from);
        assert forall|i: int| 0 <= i < p.len() implies d.contains(#[trigger] p[i]) && !rows_equal(p[i], d.last()) by {
            let k = choose|k: int| 0 <= k < d.len() - 1 && d.drop_last()[k] == p[i];
            assert(d[k] == p[i]);
            assert(d[d.len() - 1] == d.last());
        }
        assert(d[d.len() - 1] == d.last());
    }
}

proof fn lemma_absent(d: Seq<Seq<ValueV>>, from: Seq<Seq<ValueV>>)
    requires
        all_differ(d),
    ensures
        all_differ(absent(d, from)),
        forall|i: int| 0 <= i < absent(d, from).len() ==> d.contains(#[trigger] absent(d, from)[i]),
    decreases d.len(),
{
    if d.len() > 0 {
        assert(all_differ(d.drop_last()));
        lemma_absent(d.drop_last(), from);
        let p = absent(d.drop_last(), from);
        assert forall|i: int| 0 <= i < p.len() implies d.contains(#[trigger] p[i]) && !rows_equal(p[i], d.last()) by {
            let k = choose|k: int| 0 <= k < d.len() - 1 && d.drop_last()[k] == p[i];
            assert(d[k] == p[i]);
            assert(d[d.len() - 1] == d.last());
        }
        assert(d[d.len() - 1] == d.last());
    }
}

/// Chained SELECTs are combined from the left: another one is combined, by its own operator, with
/// all that came before it.
pub proof fn chains_combine_from_the_left(env: EnvV, run: Runner, ctes: Seq<CteEntryV>, parts: Seq<CompoundSelectV>, last: CompoundSelectV, columns: nat, rows: Seq<Seq<ValueV>>, out: SelectOutV, from: int)
    requires
        0 <= from <= parts.len(),
        run(branch(env, parts.len() as int), ctes, last.select) == Ok::<SelectOutV, ErrorV>(out),
        out.columns.len() == columns,
    ensures
        compound_rows(env, run, ctes, parts.push(last), columns, rows, from) == (match compound_rows(env, run, ctes, parts, columns, rows, from) {
            Ok(before) => Ok(combined(last.op, before, out.rows)),
            Err(e) => Err(e),
        }),
    decreases parts.len() - from,
{
    reveal_with_fuel(compound_rows, 3);
    if from < parts.len() {
        assert(parts.push(last)[from] == parts[from]);
        if let Ok(o) = run(branch(env, from), ctes, parts[from].select) {
            if o.columns.len() == columns {
                chains_combine_from_the_left(env, run, ctes, parts, last, columns, combined(parts[from].op, rows, o.rows), out, from + 1);
            }
        }
    } else {
        assert(parts.push(last)[from] == last);
    }
}

// --- subqueries ---

/// A scalar subquery is the one value that its query gives, NULL where it gives no row, and an
/// error where it gives more than one row or not one column.
pub proof fn scalar_subqueries_give_one_value(out: SelectOutV)
    ensures
        out.columns.len() == 1 && out.rows.len() == 1 ==> scalar_of(out) == Ok::<ValueV, ErrorV>(out.rows[0][0]),
        out.columns.len() == 1 && out.rows.len() == 0 ==> scalar_of(out) == Ok::<ValueV, ErrorV>(ValueV::Null),
        out.rows.len() > 1 || out.columns.len() != 1 ==> scalar_of(out) is Err,
        out.columns.len() != 1 ==> list_of(out) is Err,
        out.columns.len() == 1 ==> list_of(out) is Ok && list_of(out)->Ok_0.len() == out.rows.len() && forall|i: int|
            0 <= i < out.rows.len() ==> #[trigger] list_of(out)->Ok_0[i] == ExprV::Literal(out.rows[i][0]),
{
}

/// EXISTS is true exactly where its query gives a row; a scalar subquery and IN become what their
/// query gives.
pub proof fn subqueries_are_answered(env: EnvV, run: Runner, ctes: Seq<CteEntryV>, pass: PassV, q: SelectStmtV, q2: SelectStmtV, out: SelectOutV)
    requires
        ready(pass, q) == Some(q2),
        run(env, ctes, q2) == Ok::<SelectOutV, ErrorV>(out),
    ensures
        answered(env, run, ctes, pass, ExprV::Exists(Box::new(q))) == Ok::<ExprV, ErrorV>(ExprV::Literal(ValueV::Bool(out.rows.len() > 0))),
        out.columns.len() == 1 && out.rows.len() == 1 ==> answered(env, run, ctes, pass, ExprV::ScalarSubquery(Box::new(q))) == Ok::<ExprV, ErrorV>(ExprV::Literal(out.rows[0][0])),
        out.columns.len() == 1 && out.rows.len() == 0 ==> answered(env, run, ctes, pass, ExprV::ScalarSubquery(Box::new(q))) == Ok::<ExprV, ErrorV>(ExprV::Literal(ValueV::Null)),
{
}

} // verus!
