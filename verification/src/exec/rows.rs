//! Sets of rows: sorting, grouping, removal of duplicates, LIMIT and OFFSET.
use vstd::prelude::*;

use crate::error::{sql_err, Error, ErrorV};
#[allow(unused_imports)]
use crate::error::{gives, sql_error};
use crate::exec::eval::eval_const;
#[allow(unused_imports)]
use crate::exec::eval::value_of;
use crate::exec::ops::{order_nulls_first, value_equals, Env, EnvV};
#[allow(unused_imports)]
use crate::exec::ops::{branch, sort_order, value_order, value_order_reverses, values_equal};
use crate::reals::{reversed, Order};
#[allow(unused_imports)]
use crate::reals::reverse_order;
use crate::record::{bytes_same, Value, ValueV};
#[allow(unused_imports)]
use crate::record::{row_view, rows_view};
use crate::sql::ast::{Expr, ExprV};
use crate::text::cat;

verus! {

// --- sorting ---

/// The order of two keys from their part `i` on; `descs` says which parts descend.
pub open spec fn key_order(
    env: EnvV,
    a: Seq<ValueV>,
    b: Seq<ValueV>,
    descs: Seq<bool>,
    i: int,
) -> Result<Order, ErrorV>
    decreases descs.len() - i,
{
    if i < 0 || i >= descs.len() {
        Ok(Order::Equal)
    } else {
        match sort_order(env, a[i], b[i]) {
            Err(e) => Err(e),
            Ok(Order::Equal) => key_order(env, a, b, descs, i + 1),
            Ok(o) => Ok(
                if descs[i] {
                    reverse_order(o)
                } else {
                    o
                },
            ),
        }
    }
}

/// `s` with `x` placed after the last item that is not greater.
pub open spec fn placed_item(
    env: EnvV,
    keys: Seq<Seq<ValueV>>,
    descs: Seq<bool>,
    s: Seq<usize>,
    x: usize,
) -> Result<Seq<usize>, ErrorV>
    decreases s.len(),
{
    if s.len() == 0 {
        Ok(seq![x])
    } else {
        match key_order(env, keys[x as int], keys[s.last() as int], descs, 0) {
            Err(e) => Err(e),
            Ok(Order::Less) => match placed_item(env, keys, descs, s.drop_last(), x) {
                Err(e) => Err(e),
                Ok(r) => Ok(r.push(s.last())),
            },
            Ok(_) => Ok(s.push(x)),
        }
    }
}

/// The items in the order of their keys; items of the same order stay as they are.
pub open spec fn sorted_items(
    env: EnvV,
    keys: Seq<Seq<ValueV>>,
    descs: Seq<bool>,
    items: Seq<usize>,
) -> Result<Seq<usize>, ErrorV>
    decreases items.len(),
{
    if items.len() == 0 {
        Ok(Seq::empty())
    } else {
        match sorted_items(env, keys, descs, items.drop_last()) {
            Err(e) => Err(e),
            Ok(s) => placed_item(env, keys, descs, s, items.last()),
        }
    }
}

fn order_keys(env: &Env, a: &Vec<Value>, b: &Vec<Value>, descs: &Vec<bool>) -> (r: Result<Order, Error>)
    requires
        a@.len() == descs@.len(),
        b@.len() == descs@.len(),
    ensures
        (match key_order(env@, row_view(a@), row_view(b@), descs@, 0) {
            Ok(o) => r == Ok::<Order, Error>(o),
            Err(e) => r is Err && r->Err_0@ == e,
        }),
{
    let n: usize = descs.len();
    let ghost av = row_view(a@);
    let ghost bv = row_view(b@);
    for i in 0..n
        invariant
            n == descs@.len(),
            a@.len() == n,
            b@.len() == n,
            av == row_view(a@),
            bv == row_view(b@),
            key_order(env@, av, bv, descs@, 0) == key_order(env@, av, bv, descs@, i as int),
    {
        match order_nulls_first(env, &a[i], &b[i]) {
            Err(e) => {
                return Err(e);
            },
            Ok(Order::Equal) => {},
            Ok(o) => {
                return Ok(
                    if descs[i] {
                        reversed(o)
                    } else {
                        o
                    },
                );
            },
        }
    }
    Ok(Order::Equal)
}

/// Every key has as many parts as `n`.
pub open spec fn keys_fit(keys: Seq<Vec<Value>>, n: int) -> bool {
    forall|i: int| 0 <= i < keys.len() ==> (#[trigger] keys[i])@.len() == n
}

/// Every item is the position of a key.
pub open spec fn in_range(items: Seq<usize>, n: int) -> bool {
    forall|i: int| 0 <= i < items.len() ==> 0 <= (#[trigger] items[i]) < n
}

/// What placing comes to when placing among the first items comes to `head`.
spec fn then_tail(head: Result<Seq<usize>, ErrorV>, tail: Seq<usize>) -> Result<Seq<usize>, ErrorV> {
    match head {
        Ok(r) => Ok(r + tail),
        Err(e) => Err(e),
    }
}

pub fn sort_items(env: &Env, keys: &Vec<Vec<Value>>, descs: &Vec<bool>, items: &Vec<usize>) -> (r:
    Result<Vec<usize>, Error>)
    requires
        keys_fit(keys@, descs@.len() as int),
        in_range(items@, keys@.len() as int),
    ensures
        (match sorted_items(env@, rows_view(keys@), descs@, items@) {
            Ok(s) => r is Ok && r->Ok_0@ == s && in_range(s, keys@.len() as int) && s.len()
                == items@.len(),
            Err(e) => r is Err && r->Err_0@ == e,
        }),
{
    let mut out: Vec<usize> = Vec::new();
    let n: usize = items.len();
    let ghost kv = rows_view(keys@);
    assert(items@.take(0) =~= Seq::empty());
    for i in 0..n
        invariant
            n == items@.len(),
            keys_fit(keys@, descs@.len() as int),
            in_range(items@, keys@.len() as int),
            kv == rows_view(keys@),
            sorted_items(env@, kv, descs@, items@.take(i as int)) == Ok::<Seq<usize>, ErrorV>(out@),
            in_range(out@, keys@.len() as int),
            out@.len() == i,
    {
        let x: usize = items[i];
        let mut j: usize = out.len();
        let ghost s = out@;
        let ghost want = placed_item(env@, kv, descs@, s, x);
        proof {
            assert(items@.take(i + 1).drop_last() =~= items@.take(i as int));
            assert(items@.take(i + 1).last() == x);
            assert(s.take(s.len() as int) =~= s);
            assert(want is Ok ==> want->Ok_0 + s.skip(s.len() as int) =~= want->Ok_0);
            lemma_sorted_error(env@, kv, descs@, items@, i + 1);
        }
        let mut stop: bool = false;
        while j > 0 && !stop
            invariant
                i < n == items@.len(),
                keys_fit(keys@, descs@.len() as int),
                in_range(items@, keys@.len() as int),
                kv == rows_view(keys@),
                s == out@,
                in_range(s, keys@.len() as int),
                x == items@[i as int],
                x < keys@.len(),
                j <= s.len(),
                want == placed_item(env@, kv, descs@, s, x),
                sorted_items(env@, kv, descs@, items@.take(i + 1)) == want,
                want is Err ==> sorted_items(env@, kv, descs@, items@) == want,
                want == then_tail(placed_item(env@, kv, descs@, s.take(j as int), x), s.skip(j as int)),
                stop ==> placed_item(env@, kv, descs@, s.take(j as int), x) == Ok::<
                    Seq<usize>,
                    ErrorV,
                >(s.take(j as int).push(x)),
            decreases
                (if stop {
                    0int
                } else {
                    j + 1
                }),
        {
            let y: usize = out[j - 1];
            assert(s.take(j as int).last() == y);
            assert(s.take(j as int).drop_last() =~= s.take(j - 1));
            assert(kv[x as int] == row_view(keys@[x as int]@));
            assert(kv[y as int] == row_view(keys@[y as int]@));
            match order_keys(env, &keys[x], &keys[y], descs) {
                Err(e) => {
                    return Err(e);
                },
                Ok(Order::Less) => {
                    proof {
                        let head = placed_item(env@, kv, descs@, s.take(j - 1), x);
                        if head is Ok {
                            assert(head->Ok_0.push(y) + s.skip(j as int) =~= head->Ok_0 + s.skip(
                                j - 1,
                            ));
                        }
                    }
                    j = j - 1;
                },
                Ok(_) => {
                    stop = true;
                },
            }
        }
        out.insert(j, x);
        proof {
            assert(placed_item(env@, kv, descs@, s.take(j as int), x) == Ok::<Seq<usize>, ErrorV>(
                s.take(j as int).push(x),
            )) by {
                if j == 0 {
                    assert(s.take(0).push(x) =~= seq![x]);
                }
            }
            assert(out@ =~= s.take(j as int).push(x) + s.skip(j as int));
            assert forall|k: int| 0 <= k < out@.len() implies 0 <= (#[trigger] out@[k])
                < keys@.len() by {
                if k < j {
                    assert(out@[k] == s[k]);
                } else if k > j {
                    assert(out@[k] == s[k - 1]);
                }
            }
        }
    }
    assert(items@.take(n as int) =~= items@);
    Ok(out)
}

/// An error on the first items is the error on all of them.
proof fn lemma_sorted_error(
    env: EnvV,
    keys: Seq<Seq<ValueV>>,
    descs: Seq<bool>,
    items: Seq<usize>,
    n: int,
)
    requires
        0 <= n <= items.len(),
    ensures
        sorted_items(env, keys, descs, items.take(n)) is Err ==> sorted_items(
            env,
            keys,
            descs,
            items,
        ) == sorted_items(env, keys, descs, items.take(n)),
    decreases items.len() - n,
{
    if n == items.len() {
        assert(items.take(n) =~= items);
    } else {
        lemma_sorted_error(env, keys, descs, items, n + 1);
        assert(items.take(n + 1).drop_last() =~= items.take(n));
    }
}

/// Placing an item adds it and nothing else.
proof fn lemma_placed_multiset(
    env: EnvV,
    keys: Seq<Seq<ValueV>>,
    descs: Seq<bool>,
    s: Seq<usize>,
    x: usize,
)
    ensures
        placed_item(env, keys, descs, s, x) is Ok ==> placed_item(
            env,
            keys,
            descs,
            s,
            x,
        )->Ok_0.to_multiset() == s.to_multiset().insert(x),
    decreases s.len(),
{
    broadcast use vstd::seq_lib::group_to_multiset_ensures;

    if s.len() == 0 {
        assert(seq![x] =~= Seq::<usize>::empty().push(x));
        assert(s =~= Seq::empty());
    } else {
        lemma_placed_multiset(env, keys, descs, s.drop_last(), x);
        assert(s =~= s.drop_last().push(s.last()));
        assert(s.drop_last().to_multiset().insert(x).insert(s.last())
            =~= s.drop_last().to_multiset().insert(s.last()).insert(x));
    }
}

/// Sorting keeps the items: what comes out is what went in, in another order.
pub proof fn sorting_permutes(
    env: EnvV,
    keys: Seq<Seq<ValueV>>,
    descs: Seq<bool>,
    items: Seq<usize>,
)
    requires
        sorted_items(env, keys, descs, items) is Ok,
    ensures
        sorted_items(env, keys, descs, items)->Ok_0.to_multiset() == items.to_multiset(),
    decreases items.len(),
{
    broadcast use vstd::seq_lib::group_to_multiset_ensures;

    if items.len() == 0 {
        assert(items =~= Seq::empty());
    } else {
        sorting_permutes(env, keys, descs, items.drop_last());
        let s = sorted_items(env, keys, descs, items.drop_last())->Ok_0;
        lemma_placed_multiset(env, keys, descs, s, items.last());
        assert(items =~= items.drop_last().push(items.last()));
    }
}

proof fn lemma_sort_order_reverses(env: EnvV, a: ValueV, b: ValueV)
    ensures
        sort_order(env, a, b) is Ok ==> sort_order(env, b, a) == Ok::<Order, ErrorV>(
            reverse_order(sort_order(env, a, b)->Ok_0),
        ),
{
    if value_order(env, a, b) is Ok {
        value_order_reverses(env, a, b);
    }
}

/// Keys compare the other way round when they are swapped.
pub proof fn key_order_reverses(
    env: EnvV,
    a: Seq<ValueV>,
    b: Seq<ValueV>,
    descs: Seq<bool>,
    i: int,
)
    requires
        key_order(env, a, b, descs, i) is Ok,
    ensures
        key_order(env, b, a, descs, i) == Ok::<Order, ErrorV>(
            reverse_order(key_order(env, a, b, descs, i)->Ok_0),
        ),
    decreases descs.len() - i,
{
    if 0 <= i < descs.len() {
        lemma_sort_order_reverses(env, a[i], b[i]);
        if sort_order(env, a[i], b[i]) == Ok::<Order, ErrorV>(Order::Equal) {
            key_order_reverses(env, a, b, descs, i + 1);
        }
    }
}

/// No item comes before its predecessor.
pub open spec fn ascending(env: EnvV, keys: Seq<Seq<ValueV>>, descs: Seq<bool>, s: Seq<usize>) -> bool {
    forall|i: int|
        0 < i < s.len() ==> key_order(
            env,
            keys[#[trigger] s[i] as int],
            keys[s[i - 1] as int],
            descs,
            0,
        ) != Ok::<Order, ErrorV>(Order::Less)
}

proof fn lemma_placed_ascending(
    env: EnvV,
    keys: Seq<Seq<ValueV>>,
    descs: Seq<bool>,
    s: Seq<usize>,
    x: usize,
)
    requires
        ascending(env, keys, descs, s),
        placed_item(env, keys, descs, s, x) is Ok,
    ensures
        ascending(env, keys, descs, placed_item(env, keys, descs, s, x)->Ok_0),
        ({
            let r = placed_item(env, keys, descs, s, x)->Ok_0;
            r.len() == s.len() + 1 && (r.last() == x || (s.len() > 0 && r.last() == s.last()
                && key_order(env, keys[x as int], keys[s.last() as int], descs, 0) == Ok::<
                Order,
                ErrorV,
            >(Order::Less)))
        }),
    decreases s.len(),
{
    let r = placed_item(env, keys, descs, s, x)->Ok_0;
    if s.len() == 0 {
    } else if key_order(env, keys[x as int], keys[s.last() as int], descs, 0) == Ok::<Order, ErrorV>(
        Order::Less,
    ) {
        let t = s.drop_last();
        assert forall|i: int| 0 < i < t.len() implies key_order(
            env,
            keys[#[trigger] t[i] as int],
            keys[t[i - 1] as int],
            descs,
            0,
        ) != Ok::<Order, ErrorV>(Order::Less) by {
            assert(t[i] == s[i] && t[i - 1] == s[i - 1]);
        }
        lemma_placed_ascending(env, keys, descs, t, x);
        let q = placed_item(env, keys, descs, t, x)->Ok_0;
        key_order_reverses(env, keys[x as int], keys[s.last() as int], descs, 0);
        assert forall|i: int| 0 < i < r.len() implies key_order(
            env,
            keys[#[trigger] r[i] as int],
            keys[r[i - 1] as int],
            descs,
            0,
        ) != Ok::<Order, ErrorV>(Order::Less) by {
            if i < q.len() {
                assert(r[i] == q[i] && r[i - 1] == q[i - 1]);
            } else {
                assert(r[i] == s.last());
                assert(r[i - 1] == q.last());
                if q.last() != x {
                    assert(q.last() == t.last());
                    assert(s[s.len() - 1] == s.last());
                    assert(t.last() == s[s.len() - 2]);
                }
            }
        }
    } else {
        assert forall|i: int| 0 < i < r.len() implies key_order(
            env,
            keys[#[trigger] r[i] as int],
            keys[r[i - 1] as int],
            descs,
            0,
        ) != Ok::<Order, ErrorV>(Order::Less) by {
            if i < s.len() {
                assert(r[i] == s[i] && r[i - 1] == s[i - 1]);
            } else {
                assert(r[i] == x && r[i - 1] == s.last());
            }
        }
    }
}

/// What comes out of sorting ascends.
pub proof fn sorting_ascends(env: EnvV, keys: Seq<Seq<ValueV>>, descs: Seq<bool>, items: Seq<usize>)
    requires
        sorted_items(env, keys, descs, items) is Ok,
    ensures
        ascending(env, keys, descs, sorted_items(env, keys, descs, items)->Ok_0),
    decreases items.len(),
{
    if items.len() > 0 {
        sorting_ascends(env, keys, descs, items.drop_last());
        let s = sorted_items(env, keys, descs, items.drop_last())->Ok_0;
        lemma_placed_ascending(env, keys, descs, s, items.last());
    }
}

/// Items that ascend already stay where they are.
pub proof fn sorting_keeps_sorted(
    env: EnvV,
    keys: Seq<Seq<ValueV>>,
    descs: Seq<bool>,
    items: Seq<usize>,
)
    requires
        sorted_items(env, keys, descs, items) is Ok,
        ascending(env, keys, descs, items),
    ensures
        sorted_items(env, keys, descs, items)->Ok_0 == items,
    decreases items.len(),
{
    if items.len() > 0 {
        let t = items.drop_last();
        assert forall|i: int| 0 < i < t.len() implies key_order(
            env,
            keys[#[trigger] t[i] as int],
            keys[t[i - 1] as int],
            descs,
            0,
        ) != Ok::<Order, ErrorV>(Order::Less) by {
            assert(t[i] == items[i] && t[i - 1] == items[i - 1]);
        }
        sorting_keeps_sorted(env, keys, descs, t);
        if t.len() > 0 {
            assert(items[items.len() - 1] == items.last());
            assert(t.last() == items[items.len() - 2]);
        }
        assert(items =~= t.push(items.last()));
        assert(t.len() == 0 ==> items =~= seq![items.last()]);
    } else {
        assert(items =~= Seq::empty());
    }
}

/// An item is placed behind some of the others; its key is less than that of every item
/// behind it.
pub(crate) proof fn lemma_placed_at(
    env: EnvV,
    keys: Seq<Seq<ValueV>>,
    descs: Seq<bool>,
    s: Seq<usize>,
    x: usize,
) -> (k: int)
    requires
        placed_item(env, keys, descs, s, x) is Ok,
    ensures
        0 <= k <= s.len(),
        placed_item(env, keys, descs, s, x)->Ok_0 == s.take(k).push(x) + s.skip(k),
        forall|j: int|
            k <= j < s.len() ==> key_order(env, keys[x as int], keys[#[trigger] s[j] as int], descs, 0)
                == Ok::<Order, ErrorV>(Order::Less),
    decreases s.len(),
{
    if s.len() == 0 {
        assert(seq![x] =~= s.take(0).push(x) + s.skip(0));
        0
    } else if key_order(env, keys[x as int], keys[s.last() as int], descs, 0) == Ok::<Order, ErrorV>(
        Order::Less,
    ) {
        let t = s.drop_last();
        let k = lemma_placed_at(env, keys, descs, t, x);
        assert((t.take(k).push(x) + t.skip(k)).push(s.last()) =~= s.take(k).push(x) + s.skip(k));
        assert forall|j: int| k <= j < s.len() implies key_order(
            env,
            keys[x as int],
            keys[#[trigger] s[j] as int],
            descs,
            0,
        ) == Ok::<Order, ErrorV>(Order::Less) by {
            if j < t.len() {
                assert(t[j] == s[j]);
            }
        }
        k
    } else {
        assert(s.push(x) =~= s.take(s.len() as int).push(x) + s.skip(s.len() as int));
        s.len() as int
    }
}

/// An item comes before one of a lower number only where its key is less.
pub open spec fn stable(env: EnvV, keys: Seq<Seq<ValueV>>, descs: Seq<bool>, s: Seq<usize>) -> bool {
    forall|i: int, j: int|
        0 <= i < j < s.len() && #[trigger] s[i] >= #[trigger] s[j] ==> key_order(
            env,
            keys[s[i] as int],
            keys[s[j] as int],
            descs,
            0,
        ) == Ok::<Order, ErrorV>(Order::Less)
}

/// Sorting is stable: items whose keys are equal keep the order in which they were given.
pub proof fn sorting_is_stable(
    env: EnvV,
    keys: Seq<Seq<ValueV>>,
    descs: Seq<bool>,
    items: Seq<usize>,
)
    requires
        sorted_items(env, keys, descs, items) is Ok,
        forall|i: int, j: int| 0 <= i < j < items.len() ==> #[trigger] items[i] < #[trigger] items[j],
    ensures
        stable(env, keys, descs, sorted_items(env, keys, descs, items)->Ok_0),
        forall|i: int|
            0 <= i < sorted_items(env, keys, descs, items)->Ok_0.len()
                ==> #[trigger] sorted_items(env, keys, descs, items)->Ok_0[i] <= items.last(),
    decreases items.len(),
{
    if items.len() > 0 {
        let t = items.drop_last();
        let x = items.last();
        assert forall|i: int, j: int| 0 <= i < j < t.len() implies #[trigger] t[i] < #[trigger] t[j] by {
            assert(items[i] < items[j]);
        }
        sorting_is_stable(env, keys, descs, t);
        let s = sorted_items(env, keys, descs, t)->Ok_0;
        sorting_permutes(env, keys, descs, t);
        assert(s.len() == t.len()) by {
            broadcast use vstd::seq_lib::group_to_multiset_ensures;

            assert(s.to_multiset().len() == s.len());
            assert(t.to_multiset().len() == t.len());
        }
        let k = lemma_placed_at(env, keys, descs, s, x);
        let r = sorted_items(env, keys, descs, items)->Ok_0;
        assert(r == s.take(k).push(x) + s.skip(k));
        assert forall|i: int| 0 <= i < s.len() implies #[trigger] s[i] < x by {
            assert(s[i] <= t.last());
            assert(items[items.len() - 2] < items[items.len() - 1]);
        }
        assert forall|i: int| 0 <= i < r.len() implies #[trigger] r[i] <= x by {
            if i < k {
                assert(r[i] == s[i]);
            } else if i > k {
                assert(r[i] == s[i - 1]);
            }
        }
        assert forall|i: int, j: int| 0 <= i < j < r.len() && #[trigger] r[i] >= #[trigger] r[j] implies key_order(
            env,
            keys[r[i] as int],
            keys[r[j] as int],
            descs,
            0,
        ) == Ok::<Order, ErrorV>(Order::Less) by {
            let a = if i < k { i } else { i - 1 };
            let b = if j < k { j } else { j - 1 };
            if i == k {
                assert(r[i] == x && r[j] == s[b]);
            } else if j == k {
                assert(r[i] == s[a] && r[j] == x);
            } else {
                assert(r[i] == s[a] && r[j] == s[b]);
            }
        }
    }
}

/// A NULL comes before every other value in an ascending key, and after it in a descending
/// one.
pub proof fn nulls_sort_first(env: EnvV, a: Seq<ValueV>, b: Seq<ValueV>, descs: Seq<bool>)
    requires
        descs.len() > 0,
        a[0] is Null,
        !(b[0] is Null),
    ensures
        key_order(env, a, b, descs, 0) == Ok::<Order, ErrorV>(
            if descs[0] {
                Order::Greater
            } else {
                Order::Less
            },
        ),
{
}

/// The positions `0..n`.
pub open spec fn positions(n: nat) -> Seq<usize> {
    Seq::new(n, |i: int| i as usize)
}

pub fn positions_of(n: usize) -> (r: Vec<usize>)
    ensures
        r@ == positions(n as nat),
        in_range(r@, n as int),
{
    let mut out: Vec<usize> = Vec::new();
    for i in 0..n
        invariant
            out@.len() == i,
            forall|k: int| 0 <= k < i ==> #[trigger] out@[k] == k,
    {
        out.push(i);
    }
    assert(out@ =~= positions(n as nat));
    out
}

// --- grouping ---

/// The first group whose key is `key`; a group has the key of its first item.
pub open spec fn group_of(keys: Seq<Seq<u8>>, groups: Seq<Seq<usize>>, key: Seq<u8>, i: int) -> Option<
    int,
>
    decreases groups.len() - i,
{
    if i < 0 || i >= groups.len() {
        None
    } else if groups[i].len() > 0 && keys[groups[i][0] as int] == key {
        Some(i)
    } else {
        group_of(keys, groups, key, i + 1)
    }
}

/// The positions of the first `n` keys in groups of equal keys, the groups in order
/// of first appearance.
pub open spec fn groups_of(keys: Seq<Seq<u8>>, n: nat) -> Seq<Seq<usize>>
    decreases n,
{
    if n == 0 {
        Seq::empty()
    } else {
        let x = (n - 1) as usize;
        let before = groups_of(keys, (n - 1) as nat);
        match group_of(keys, before, keys[n - 1], 0) {
            Some(g) => before.update(g, before[g].push(x)),
            None => before.push(seq![x]),
        }
    }
}

pub open spec fn groups_v(gs: Seq<Vec<usize>>) -> Seq<Seq<usize>> {
    Seq::new(gs.len(), |i: int| gs[i]@)
}

pub open spec fn byte_rows(s: Seq<Vec<u8>>) -> Seq<Seq<u8>> {
    Seq::new(s.len(), |i: int| s[i]@)
}

/// Groups of positions below `n`, none of them empty.
pub open spec fn groups_ok(gs: Seq<Vec<usize>>, n: int) -> bool {
    forall|i: int|
        0 <= i < gs.len() ==> (#[trigger] gs[i])@.len() > 0 && in_range(gs[i]@, n)
}

pub fn group_positions(keys: &Vec<Vec<u8>>) -> (r: Vec<Vec<usize>>)
    ensures
        groups_v(r@) == groups_of(byte_rows(keys@), keys@.len()),
        groups_ok(r@, keys@.len() as int),
{
    let mut gs: Vec<Vec<usize>> = Vec::new();
    let n: usize = keys.len();
    let ghost kv = byte_rows(keys@);
    assert(groups_v(gs@) =~= groups_of(kv, 0));
    for i in 0..n
        invariant
            n == keys@.len(),
            kv == byte_rows(keys@),
            groups_v(gs@) == groups_of(kv, i as nat),
            groups_ok(gs@, i as int),
    {
        let ghost before = groups_v(gs@);
        let m: usize = gs.len();
        let mut g: usize = 0;
        while g < m && !bytes_same(&keys[gs[g][0]], &keys[i])
            invariant
                g <= m == gs@.len(),
                i < n == keys@.len(),
                kv == byte_rows(keys@),
                before == groups_v(gs@),
                groups_ok(gs@, i as int),
                group_of(kv, before, kv[i as int], 0) == group_of(kv, before, kv[i as int], g as int),
            decreases m - g,
        {
            assert(before[g as int] == gs@[g as int]@);
            assert(in_range(gs@[g as int]@, i as int));
            assert(0 <= gs@[g as int]@[0] < i);
            g = g + 1;
        }
        if g < m {
            assert(before[g as int] == gs@[g as int]@);
            assert(in_range(gs@[g as int]@, i as int));
            assert(0 <= gs@[g as int]@[0] < i);
            let ghost old_gs = gs@;
            let mut group: Vec<usize> = Vec::new();
            std::mem::swap(&mut gs[g], &mut group);
            group.push(i);
            gs.set(g, group);
            assert(groups_v(gs@) =~= before.update(g as int, before[g as int].push(i)));
            assert forall|k: int| 0 <= k < gs@.len() implies (#[trigger] gs@[k])@.len() > 0
                && in_range(gs@[k]@, i + 1) by {
                if k != g {
                    assert(gs@[k] == old_gs[k]);
                }
                assert(in_range(old_gs[k]@, i as int));
            }
        } else {
            let ghost old_gs = gs@;
            let mut group: Vec<usize> = Vec::new();
            group.push(i);
            gs.push(group);
            assert(groups_v(gs@) =~= before.push(seq![i]));
            assert forall|k: int| 0 <= k < gs@.len() implies (#[trigger] gs@[k])@.len() > 0
                && in_range(gs@[k]@, i + 1) by {
                if k < old_gs.len() {
                    assert(gs@[k] == old_gs[k]);
                    assert(in_range(old_gs[k]@, i as int));
                }
            }
        }
    }
    gs
}

// --- widths ---

/// Every row has `n` values.
pub open spec fn rows_wide(rows: Seq<Seq<ValueV>>, n: int) -> bool {
    forall|i: int| 0 <= i < rows.len() ==> (#[trigger] rows[i]).len() == n
}

pub proof fn lemma_distinct_wide(rows: Seq<Seq<ValueV>>, n: int)
    requires
        rows_wide(rows, n),
    ensures
        rows_wide(distinct_rows(rows), n),
    decreases rows.len(),
{
    if rows.len() > 0 {
        lemma_distinct_wide(rows.drop_last(), n);
    }
}

// --- duplicates ---

pub open spec fn rows_equal(a: Seq<ValueV>, b: Seq<ValueV>) -> bool {
    a.len() == b.len() && forall|i: int| 0 <= i < a.len() ==> values_equal(#[trigger] a[i], b[i])
}

pub fn row_equals(a: &Vec<Value>, b: &Vec<Value>) -> (r: bool)
    ensures
        r == rows_equal(row_view(a@), row_view(b@)),
{
    if a.len() != b.len() {
        return false;
    }
    let n: usize = a.len();
    for i in 0..n
        invariant
            n == a@.len() == b@.len(),
            forall|k: int|
                0 <= k < i ==> values_equal(#[trigger] row_view(a@)[k], row_view(b@)[k]),
    {
        assert(row_view(a@)[i as int] == a@[i as int]@);
        if !value_equals(&a[i], &b[i]) {
            return false;
        }
    }
    true
}

pub open spec fn has_row(rows: Seq<Seq<ValueV>>, row: Seq<ValueV>) -> bool {
    exists|k: int| 0 <= k < rows.len() && rows_equal(#[trigger] rows[k], row)
}

/// Without the rows that equal an earlier one.
pub open spec fn distinct_rows(rows: Seq<Seq<ValueV>>) -> Seq<Seq<ValueV>>
    decreases rows.len(),
{
    if rows.len() == 0 {
        Seq::empty()
    } else {
        let seen = distinct_rows(rows.drop_last());
        if has_row(seen, rows.last()) {
            seen
        } else {
            seen.push(rows.last())
        }
    }
}

pub fn contains_row(rows: &Vec<Vec<Value>>, row: &Vec<Value>) -> (r: bool)
    ensures
        r == has_row(rows_view(rows@), row_view(row@)),
{
    let n: usize = rows.len();
    for i in 0..n
        invariant
            n == rows@.len(),
            forall|k: int|
                0 <= k < i ==> !rows_equal(#[trigger] rows_view(rows@)[k], row_view(row@)),
    {
        assert(rows_view(rows@)[i as int] == row_view(rows@[i as int]@));
        if row_equals(&rows[i], row) {
            return true;
        }
    }
    false
}

pub fn dedup_preserving(rows: Vec<Vec<Value>>) -> (r: Vec<Vec<Value>>)
    ensures
        rows_view(r@) == distinct_rows(rows_view(rows@)),
{
    let mut out: Vec<Vec<Value>> = Vec::new();
    let n: usize = rows.len();
    let ghost all = rows_view(rows@);
    assert(all.take(0) =~= Seq::empty());
    assert(rows_view(out@) =~= Seq::empty());
    for i in 0..n
        invariant
            n == rows@.len(),
            all == rows_view(rows@),
            rows_view(out@) == distinct_rows(all.take(i as int)),
    {
        assert(all.take(i + 1).drop_last() =~= all.take(i as int));
        let ghost before = rows_view(out@);
        if !contains_row(&out, &rows[i]) {
            let row = crate::record::clone_row(&rows[i]);
            let ghost rv = row_view(row@);
            out.push(row);
            assert(rows_view(out@) =~= before.push(rv));
        }
    }
    assert(all.take(n as int) =~= all);
    out
}

/// Removing duplicates leaves no two equal rows.
pub proof fn distinct_rows_differ(rows: Seq<Seq<ValueV>>, i: int, j: int)
    requires
        0 <= i < j < distinct_rows(rows).len(),
    ensures
        !rows_equal(distinct_rows(rows)[i], distinct_rows(rows)[j]),
    decreases rows.len(),
{
    let seen = distinct_rows(rows.drop_last());
    if j < seen.len() {
        distinct_rows_differ(rows.drop_last(), i, j);
    } else {
        assert(distinct_rows(rows)[i] == seen[i]);
    }
}

/// Removing duplicates twice is removing them once.
pub proof fn distinct_rows_settle(rows: Seq<Seq<ValueV>>)
    ensures
        distinct_rows(distinct_rows(rows)) == distinct_rows(rows),
    decreases rows.len(),
{
    if rows.len() > 0 {
        let seen = distinct_rows(rows.drop_last());
        distinct_rows_settle(rows.drop_last());
        if !has_row(seen, rows.last()) {
            assert(seen.push(rows.last()).drop_last() =~= seen);
        }
    }
}

// --- LIMIT and OFFSET ---

/// A count that a clause gives as a constant.
pub open spec fn count_value(env: EnvV, e: ExprV, params: Seq<ValueV>, what: Seq<char>) -> Result<
    usize,
    ErrorV,
> {
    match value_of(env, e, None, params) {
        Err(x) => Err(x),
        Ok(ValueV::Integer(n)) if n >= 0 => Ok(n as usize),
        Ok(_) => Err(sql_error(what + " debe ser un entero no negativo"@)),
    }
}

pub fn usize_const(env: &Env, e: &Expr, params: &Vec<Value>, what: &str) -> (r: Result<usize, Error>)
    ensures
        (match count_value(env@, e@, row_view(params@), what@) {
            Ok(n) => r == Ok::<usize, Error>(n),
            Err(e) => r is Err && r->Err_0@ == e,
        }),
{
    match eval_const(env, e, params) {
        Err(x) => Err(x),
        Ok(Value::Integer(n)) if n >= 0 => Ok(n as usize),
        Ok(_) => Err(sql_err(cat(what, " debe ser un entero no negativo"))),
    }
}

/// The bounds that OFFSET and LIMIT give: the number of rows to skip and, where there
/// is a limit, to keep.
pub open spec fn bounds(
    env: EnvV,
    limit: Option<ExprV>,
    offset: Option<ExprV>,
    params: Seq<ValueV>,
) -> Result<(int, Option<int>), ErrorV> {
    let skip = match offset {
        Some(e) => match count_value(branch(env, 20), e, params, "OFFSET"@) {
            Ok(n) => Ok(n as int),
            Err(e) => Err(e),
        },
        None => Ok(0),
    };
    match skip {
        Err(e) => Err(e),
        Ok(k) => match limit {
            Some(e) => match count_value(branch(env, 21), e, params, "LIMIT"@) {
                Ok(n) => Ok((k, Some(n as int))),
                Err(e) => Err(e),
            },
            None => Ok((k, None)),
        },
    }
}

/// The part of a sequence that the bounds leave.
pub open spec fn cut<T>(rows: Seq<T>, skip: int, keep: Option<int>) -> Seq<T> {
    let rest = if skip < rows.len() {
        rows.skip(skip)
    } else {
        Seq::empty()
    };
    match keep {
        Some(n) => if n < rest.len() {
            rest.take(n)
        } else {
            rest
        },
        None => rest,
    }
}

/// The rows that OFFSET and LIMIT leave.
pub open spec fn limited(
    env: EnvV,
    rows: Seq<Seq<ValueV>>,
    limit: Option<ExprV>,
    offset: Option<ExprV>,
    params: Seq<ValueV>,
) -> Result<Seq<Seq<ValueV>>, ErrorV> {
    match bounds(env, limit, offset, params) {
        Err(e) => Err(e),
        Ok((skip, keep)) => Ok(cut(rows, skip, keep)),
    }
}

pub open spec fn opt_expr(o: Option<Expr>) -> Option<ExprV> {
    match o {
        Some(e) => Some(e@),
        None => None,
    }
}

pub fn limit_bounds(env: &Env, limit: &Option<Expr>, offset: &Option<Expr>, params: &Vec<Value>) -> (r:
    Result<(usize, Option<usize>), Error>)
    ensures
        (match bounds(env@, opt_expr(*limit), opt_expr(*offset), row_view(params@)) {
            Ok((s, k)) => r is Ok && (r->Ok_0).0 == s && (match k {
                Some(n) => (r->Ok_0).1 is Some && (r->Ok_0).1->0 == n,
                None => (r->Ok_0).1 is None,
            }),
            Err(e) => r is Err && r->Err_0@ == e,
        }),
{
    let skip: usize = match offset {
        Some(e) => match usize_const(&env.branch(20), e, params, "OFFSET") {
            Ok(n) => n,
            Err(x) => {
                return Err(x);
            },
        },
        None => 0,
    };
    match limit {
        Some(e) => match usize_const(&env.branch(21), e, params, "LIMIT") {
            Ok(n) => Ok((skip, Some(n))),
            Err(x) => Err(x),
        },
        None => Ok((skip, None)),
    }
}

pub fn limit_offset(
    env: &Env,
    rows: Vec<Vec<Value>>,
    limit: &Option<Expr>,
    offset: &Option<Expr>,
    params: &Vec<Value>,
) -> (r: Result<Vec<Vec<Value>>, Error>)
    ensures
        (match limited(
            env@,
            rows_view(rows@),
            opt_expr(*limit),
            opt_expr(*offset),
            row_view(params@),
        ) {
            Ok(s) => r is Ok && rows_view(r->Ok_0@) == s && (forall|n: int|
                #[trigger] rows_wide(rows_view(rows@), n) ==> rows_wide(s, n)),
            Err(e) => r is Err && r->Err_0@ == e,
        }),
{
    let (skip, keep): (usize, Option<usize>) = match limit_bounds(env, limit, offset, params) {
        Ok(b) => b,
        Err(e) => {
            return Err(e);
        },
    };
    let n: usize = rows.len();
    let start: usize = if skip < n {
        skip
    } else {
        n
    };
    let stop: usize = match keep {
        Some(k) => if k < n - start {
            start + k
        } else {
            n
        },
        None => n,
    };
    let mut out: Vec<Vec<Value>> = Vec::new();
    for i in start..stop
        invariant
            start <= stop <= n == rows@.len(),
            out@.len() == i - start,
            forall|k: int|
                0 <= k < out@.len() ==> row_view(#[trigger] out@[k]@) == row_view(
                    rows@[start + k]@,
                ) && out@[k]@.len() == rows@[start + k]@.len(),
    {
        out.push(crate::record::clone_row(&rows[i]));
    }
    proof {
        let all = rows_view(rows@);
        assert(rows_view(out@) =~= all.subrange(start as int, stop as int));
        assert(skip < all.len() ==> all.skip(skip as int) =~= all.subrange(skip as int, n as int));
        assert forall|w: int| #[trigger] rows_wide(all, w) implies rows_wide(
            rows_view(out@),
            w,
        ) by {
            assert forall|k: int| 0 <= k < out@.len() implies (#[trigger] rows_view(out@)[k]).len()
                == w by {
                assert(rows_view(out@)[k] == all[start + k]);
            }
        }
        let s = cut(
            all,
            skip as int,
            match keep {
                Some(k) => Some(k as int),
                None => None,
            },
        );
        assert(s =~= all.subrange(start as int, stop as int));
    }
    Ok(out)
}

} // verus!
