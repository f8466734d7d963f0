//! What sorting, grouping, DISTINCT, LIMIT and OFFSET are for.
#[allow(unused_imports)]
use vstd::prelude::*;

#[allow(unused_imports)]
use crate::error::ErrorV;
#[allow(unused_imports)]
use crate::exec::eval::value_of;
#[allow(unused_imports)]
use crate::exec::ops::{branch, sort_order, EnvV};
#[allow(unused_imports)]
use crate::exec::rows::{
    cut, distinct_rows, group_of, groups_of, has_row, key_order, limited, rows_equal, sorted_items, sorting_ascends,
};
#[allow(unused_imports)]
use crate::reals::Order;
#[allow(unused_imports)]
use crate::record::ValueV;
#[allow(unused_imports)]
use crate::sql::ast::ExprV;

verus! {

// --- ORDER BY ---

proof fn lemma_key_from(env: EnvV, a: Seq<ValueV>, b: Seq<ValueV>, descs: Seq<bool>, i: int, j: int)
    requires
        0 <= i <= j <= descs.len(),
        forall|k: int| i <= k < j ==> sort_order(env, #[trigger] a[k], b[k]) == Ok::<Order, ErrorV>(Order::Equal),
    ensures
        key_order(env, a, b, descs, i) == key_order(env, a, b, descs, j),
    decreases j - i,
{
    if i < j {
        assert(sort_order(env, a[i], b[i]) == Ok::<Order, ErrorV>(Order::Equal));
        lemma_key_from(env, a, b, descs, i + 1, j);
    }
}

/// Of two keys the first part in which they differ decides: by its order where that part
/// ascends, by the opposite order where that very part descends. Keys that differ in no part are
/// equal.
pub proof fn first_difference_decides(env: EnvV, a: Seq<ValueV>, b: Seq<ValueV>, descs: Seq<bool>, j: int)
    requires
        0 <= j <= descs.len(),
        forall|k: int| 0 <= k < j ==> sort_order(env, #[trigger] a[k], b[k]) == Ok::<Order, ErrorV>(Order::Equal),
    ensures
        j == descs.len() ==> key_order(env, a, b, descs, 0) == Ok::<Order, ErrorV>(Order::Equal),
        j < descs.len() && sort_order(env, a[j], b[j]) == Ok::<Order, ErrorV>(Order::Less) ==> key_order(env, a, b, descs, 0) == Ok::<Order, ErrorV>(
            if descs[j] {
                Order::Greater
            } else {
                Order::Less
            },
        ),
        j < descs.len() && sort_order(env, a[j], b[j]) == Ok::<Order, ErrorV>(Order::Greater) ==> key_order(env, a, b, descs, 0) == Ok::<Order, ErrorV>(
            if descs[j] {
                Order::Less
            } else {
                Order::Greater
            },
        ),
        j < descs.len() && sort_order(env, a[j], b[j]) is Err ==> key_order(env, a, b, descs, 0) is Err,
{
    lemma_key_from(env, a, b, descs, 0, j);
}

/// Rows that are sorted come out, where they agree in the keys before one, ascending in that
/// key, or descending where it is marked so.
pub proof fn sorted_rows_follow_each_key(env: EnvV, keys: Seq<Seq<ValueV>>, descs: Seq<bool>, items: Seq<usize>, i: int, j: int)
    requires
        sorted_items(env, keys, descs, items) is Ok,
        0 < i < sorted_items(env, keys, descs, items)->Ok_0.len(),
        0 <= j < descs.len(),
        ({
            let out = sorted_items(env, keys, descs, items)->Ok_0;
            let (p, q) = (keys[out[i - 1] as int], keys[out[i] as int]);
            forall|k: int| 0 <= k < j ==> sort_order(env, #[trigger] q[k], p[k]) == Ok::<Order, ErrorV>(Order::Equal)
        }),
    ensures
        ({
            let out = sorted_items(env, keys, descs, items)->Ok_0;
            let (p, q) = (keys[out[i - 1] as int], keys[out[i] as int]);
            sort_order(env, q[j], p[j]) != Ok::<Order, ErrorV>(
                if descs[j] {
                    Order::Greater
                } else {
                    Order::Less
                },
            )
        }),
{
    sorting_ascends(env, keys, descs, items);
    let out = sorted_items(env, keys, descs, items)->Ok_0;
    first_difference_decides(env, keys[out[i] as int], keys[out[i - 1] as int], descs, j);
}

// --- groups ---

proof fn lemma_group_of(keys: Seq<Seq<u8>>, groups: Seq<Seq<usize>>, key: Seq<u8>, i: int)
    requires
        0 <= i <= groups.len(),
    ensures
        (match group_of(keys, groups, key, i) {
            Some(g) => i <= g < groups.len() && groups[g].len() > 0 && keys[groups[g][0] as int] == key,
            None => forall|g: int| i <= g < groups.len() && (#[trigger] groups[g]).len() > 0 ==> keys[groups[g][0] as int] != key,
        }),
    decreases groups.len() - i,
{
    if i < groups.len() && !(groups[i].len() > 0 && keys[groups[i][0] as int] == key) {
        lemma_group_of(keys, groups, key, i + 1);
    }
}

/// The positions below `n` stand in groups: no group is empty, two positions stand in the same
/// group exactly where their keys are equal, every position stands in one, and both the groups
/// and the positions in each follow the order of the positions.
pub open spec fn grouped_by(keys: Seq<Seq<u8>>, groups: Seq<Seq<usize>>, n: int) -> bool {
    &&& forall|g: int| 0 <= g < groups.len() ==> (#[trigger] groups[g]).len() > 0
    &&& forall|g: int, a: int| 0 <= g < groups.len() && 0 <= a < groups[g].len() ==> 0 <= #[trigger] groups[g][a] < n
    &&& forall|g: int, a: int| 0 <= g < groups.len() && 0 <= a < groups[g].len() ==> keys[#[trigger] groups[g][a] as int] == keys[groups[g][0] as int]
    &&& forall|g: int, h: int| 0 <= g < h < groups.len() ==> keys[(#[trigger] groups[g])[0] as int] != keys[(#[trigger] groups[h])[0] as int]
    &&& forall|i: int| 0 <= i < n ==> #[trigger] in_some_group(groups, i)
    &&& forall|g: int, a: int, b: int| 0 <= g < groups.len() && 0 <= a < b < groups[g].len() ==> #[trigger] groups[g][a] < #[trigger] groups[g][b]
    &&& forall|g: int, h: int| 0 <= g < h < groups.len() ==> (#[trigger] groups[g])[0] < (#[trigger] groups[h])[0]
}

pub open spec fn in_some_group(groups: Seq<Seq<usize>>, i: int) -> bool {
    exists|g: int, a: int| 0 <= g < groups.len() && 0 <= a < groups[g].len() && #[trigger] groups[g][a] == i
}

/// Grouping puts every row into one group, together with exactly the rows whose keys are equal to
/// its own. The groups come in the order of their first rows, the rows of a group in their own.
#[verifier::spinoff_prover]
pub proof fn groups_hold_equal_keys(keys: Seq<Seq<u8>>, n: nat)
    requires
        n <= usize::MAX,
    ensures
        grouped_by(keys, groups_of(keys, n), n as int),
    decreases n,
{
    let gs = groups_of(keys, n);
    if n > 0 {
        let m = (n - 1) as nat;
        let x = m as usize;
        groups_hold_equal_keys(keys, m);
        let old_gs = groups_of(keys, m);
        lemma_group_of(keys, old_gs, keys[n - 1], 0);
        match group_of(keys, old_gs, keys[n - 1], 0) {
            Some(t) => {
                assert(gs[t] == old_gs[t].push(x));
                assert forall|g: int| 0 <= g < gs.len() implies (#[trigger] gs[g]).len() > 0 && gs[g][0] == old_gs[g][0] by {
                    assert(old_gs[g].len() > 0);
                }
                assert forall|g: int, a: int| 0 <= g < gs.len() && 0 <= a < gs[g].len() implies 0 <= #[trigger] gs[g][a] < n by {
                    if !(g == t && a == old_gs[t].len()) {
                        assert(gs[g][a] == old_gs[g][a]);
                    }
                }
                assert forall|g: int, a: int| 0 <= g < gs.len() && 0 <= a < gs[g].len() implies keys[#[trigger] gs[g][a] as int] == keys[gs[g][0] as int] by {
                    if !(g == t && a == old_gs[t].len()) {
                        assert(gs[g][a] == old_gs[g][a]);
                    }
                }
                assert forall|g: int, h: int| 0 <= g < h < gs.len() implies keys[(#[trigger] gs[g])[0] as int] != keys[(#[trigger] gs[h])[0] as int] && gs[g][0] < gs[h][0] by {
                    assert(old_gs[g][0] < old_gs[h][0]);
                }
                assert forall|g: int, a: int, b: int| 0 <= g < gs.len() && 0 <= a < b < gs[g].len() implies #[trigger] gs[g][a] < #[trigger] gs[g][b] by {
                    assert(gs[g][a] == old_gs[g][a]);
                    if !(g == t && b == old_gs[t].len()) {
                        assert(gs[g][b] == old_gs[g][b]);
                    }
                }
                assert forall|i: int| 0 <= i < n implies #[trigger] in_some_group(gs, i) by {
                    if i < m {
                        assert(in_some_group(old_gs, i));
                        let (g, a) = choose|g: int, a: int| 0 <= g < old_gs.len() && 0 <= a < old_gs[g].len() && #[trigger] old_gs[g][a] == i;
                        assert(gs[g][a] == i);
                    } else {
                        assert(gs[t][old_gs[t].len() as int] == i);
                    }
                }
            },
            None => {
                let t = old_gs.len() as int;
                assert(gs[t] == seq![x]);
                assert forall|g: int| 0 <= g < gs.len() implies (#[trigger] gs[g]).len() > 0 by {
                    if g < t {
                        assert(gs[g] == old_gs[g]);
                    }
                }
                assert forall|g: int, a: int| 0 <= g < gs.len() && 0 <= a < gs[g].len() implies 0 <= #[trigger] gs[g][a] < n && keys[gs[g][a] as int] == keys[gs[g][0] as int] by {
                    if g < t {
                        assert(gs[g][a] == old_gs[g][a]);
                    }
                }
                assert forall|g: int, h: int| 0 <= g < h < gs.len() implies keys[(#[trigger] gs[g])[0] as int] != keys[(#[trigger] gs[h])[0] as int] && gs[g][0] < gs[h][0] by {
                    assert(gs[g] == old_gs[g]);
                    assert(old_gs[g].len() > 0);
                    assert(0 <= old_gs[g][0] < m);
                    if h < t {
                        assert(gs[h] == old_gs[h]);
                        assert(old_gs[g][0] < old_gs[h][0]);
                    }
                }
                assert forall|g: int, a: int, b: int| 0 <= g < gs.len() && 0 <= a < b < gs[g].len() implies #[trigger] gs[g][a] < #[trigger] gs[g][b] by {
                    if g < t {
                        assert(gs[g][a] == old_gs[g][a]);
                        assert(gs[g][b] == old_gs[g][b]);
                    }
                }
                assert forall|i: int| 0 <= i < n implies #[trigger] in_some_group(gs, i) by {
                    if i < m {
                        assert(in_some_group(old_gs, i));
                        let (g, a) = choose|g: int, a: int| 0 <= g < old_gs.len() && 0 <= a < old_gs[g].len() && #[trigger] old_gs[g][a] == i;
                        assert(gs[g][a] == i);
                    } else {
                        assert(gs[t][0] == i);
                    }
                }
            },
        }
    }
}

// --- DISTINCT ---

/// DISTINCT takes its rows from those that were there, loses none but for an equal one that
/// stays, and keeps the first of those that are equal: a row that equals none before it stays,
/// at the end.
pub proof fn distinct_rows_stand_for_all(rows: Seq<Seq<ValueV>>, row: Seq<ValueV>)
    ensures
        forall|i: int| 0 <= i < distinct_rows(rows).len() ==> rows.contains(#[trigger] distinct_rows(rows)[i]),
        forall|i: int|
            0 <= i < rows.len() ==> distinct_rows(rows).contains(#[trigger] rows[i]) || exists|k: int|
                0 <= k < distinct_rows(rows).len() && rows_equal(#[trigger] distinct_rows(rows)[k], rows[i]),
        distinct_rows(rows.push(row)) == (if exists|k: int| 0 <= k < distinct_rows(rows).len() && rows_equal(#[trigger] distinct_rows(rows)[k], row) {
            distinct_rows(rows)
        } else {
            distinct_rows(rows).push(row)
        }),
    decreases rows.len(),
{
    assert(rows.push(row).drop_last() =~= rows);
    let d = distinct_rows(rows);
    if rows.len() > 0 {
        distinct_rows_stand_for_all(rows.drop_last(), row);
        let p = distinct_rows(rows.drop_last());
        assert forall|i: int| 0 <= i < d.len() implies rows.contains(#[trigger] d[i]) by {
            if i < p.len() {
                assert(d[i] == p[i]);
                let k = choose|k: int| 0 <= k < rows.len() - 1 && rows.drop_last()[k] == p[i];
                assert(rows[k] == d[i]);
            } else {
                assert(d[i] == rows[rows.len() - 1]);
            }
        }
        assert forall|i: int| 0 <= i < rows.len() implies d.contains(#[trigger] rows[i]) || exists|k: int| 0 <= k < d.len() && rows_equal(#[trigger] d[k], rows[i]) by {
            if i < rows.len() - 1 {
                assert(rows.drop_last()[i] == rows[i]);
                if p.contains(rows[i]) {
                    let k = choose|k: int| 0 <= k < p.len() && p[k] == rows[i];
                    assert(d[k] == rows[i]);
                } else {
                    let k = choose|k: int| 0 <= k < p.len() && rows_equal(#[trigger] p[k], rows[i]);
                    assert(d[k] == p[k]);
                }
            } else if !has_row(p, rows.last()) {
                assert(d[p.len() as int] == rows[i]);
            }
        }
    }
}

// --- LIMIT and OFFSET ---

/// OFFSET `k` leaves out the first `k` rows and LIMIT `n` keeps the next `n` of the rest, both as
/// far as there are rows. Without them all rows stay.
pub proof fn limits_cut_rows(env: EnvV, rows: Seq<Seq<ValueV>>, limit: Option<ExprV>, offset: Option<ExprV>, params: Seq<ValueV>, n: i64, k: i64)
    requires
        n >= 0,
        k >= 0,
        n <= usize::MAX,
        k <= usize::MAX,
        offset is Some ==> value_of(branch(env, 20), offset->0, None, params) == Ok::<ValueV, ErrorV>(ValueV::Integer(k)),
        offset is None ==> k == 0,
        limit is Some ==> value_of(branch(env, 21), limit->0, None, params) == Ok::<ValueV, ErrorV>(ValueV::Integer(n)),
    ensures
        limited(env, rows, limit, offset, params) is Ok,
        ({
            let out = limited(env, rows, limit, offset, params)->Ok_0;
            let left = if k < rows.len() {
                rows.len() - k
            } else {
                0
            };
            &&& out.len() == (if limit is Some && n < left {
                n as int
            } else {
                left
            })
            &&& forall|i: int| 0 <= i < out.len() ==> #[trigger] out[i] == rows[k + i]
        }),
        limit is None && offset is None ==> limited(env, rows, limit, offset, params) == Ok::<Seq<Seq<ValueV>>, ErrorV>(rows),
{
    if limit is None && offset is None {
        assert(rows.skip(0) =~= rows);
        assert(cut(rows, 0, None) =~= rows);
    }
}

// --- what is kept of a list ---

/// `at` are the positions below `n` that are kept, in their order.
pub open spec fn keeps(at: Seq<int>, n: int, keep: spec_fn(int) -> bool) -> bool {
    &&& forall|t: int| 0 <= t < at.len() ==> 0 <= #[trigger] at[t] < n && keep(at[t])
    &&& forall|t: int, u: int| 0 <= t < u < at.len() ==> #[trigger] at[t] < #[trigger] at[u]
    &&& forall|i: int| 0 <= i < n && #[trigger] keep(i) ==> at.contains(i)
}

/// The positions from `from` on.
pub open spec fn keeps_from(at: Seq<int>, from: int, n: int, keep: spec_fn(int) -> bool) -> bool {
    &&& forall|t: int| 0 <= t < at.len() ==> from <= #[trigger] at[t] < n && keep(at[t])
    &&& forall|t: int, u: int| 0 <= t < u < at.len() ==> #[trigger] at[t] < #[trigger] at[u]
    &&& forall|i: int| from <= i < n && #[trigger] keep(i) ==> at.contains(i)
}

pub proof fn lemma_keeps_step(rest: Seq<int>, from: int, n: int, keep: spec_fn(int) -> bool) -> (at: Seq<int>)
    requires
        from < n,
        keeps_from(rest, from + 1, n, keep),
    ensures
        at == (if keep(from) {
            seq![from] + rest
        } else {
            rest
        }),
        keeps_from(at, from, n, keep),
{
    let at = if keep(from) {
        seq![from] + rest
    } else {
        rest
    };
    assert forall|i: int| from <= i < n && #[trigger] keep(i) implies at.contains(i) by {
        if i == from {
            assert(at[0] == i);
        } else {
            assert(rest.contains(i));
            let t = choose|t: int| 0 <= t < rest.len() && rest[t] == i;
            if keep(from) {
                assert(at[t + 1] == i);
            } else {
                assert(at[t] == i);
            }
        }
    }
    at
}

} // verus!
