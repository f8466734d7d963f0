//! What aggregates are for: laws of COUNT, SUM, AVG, MIN, MAX, GROUP_CONCAT and DISTINCT.
#[allow(unused_imports)]
use vstd::prelude::*;

#[allow(unused_imports)]
use crate::error::ErrorV;
#[allow(unused_imports)]
use crate::exec::aggregate::{
    aggregate_value, arg_values, distinct_values, folded_value, has_equal, real_sum_from, sum_from, texts_from,
};
#[allow(unused_imports)]
use crate::exec::eval::value_of;
#[allow(unused_imports)]
use crate::exec::functions::extreme;
#[allow(unused_imports)]
use crate::exec::ops::{branch, value_order, values_equal, EnvV};
#[allow(unused_imports)]
use crate::exec::schema::SchemaV;
#[allow(unused_imports)]
use crate::reals::{answer, Binary, Order, RealAnswerV, RealOpV};
#[allow(unused_imports)]
use crate::record::ValueV;
#[allow(unused_imports)]
use crate::sql::ast::{AggFunc, ExprV};
#[allow(unused_imports)]
use crate::sql::walk::mentions_aggregate;

verus! {

/// The bits that are recorded for an operation on reals.
pub open spec fn recorded(env: EnvV, op: RealOpV, b: u64) -> bool {
    answer(env.reals, op) == Some(RealAnswerV::Bits(b))
}

// --- which values are aggregated ---

/// The values that are not NULL.
pub open spec fn known_values(vs: Seq<ValueV>) -> Seq<ValueV> {
    vs.filter(|v: ValueV| !(v is Null))
}

pub proof fn lemma_known_first(v: ValueV, rest: Seq<ValueV>)
    ensures
        known_values(seq![v] + rest) == (if v is Null {
            known_values(rest)
        } else {
            seq![v] + known_values(rest)
        }),
    decreases rest.len(),
{
    reveal(Seq::filter);
    let all = seq![v] + rest;
    if rest.len() == 0 {
        assert(all.drop_last() =~= Seq::<ValueV>::empty());
        assert(all =~= seq![v]);
        assert(known_values(Seq::<ValueV>::empty()) =~= Seq::<ValueV>::empty());
        assert(known_values(rest) =~= Seq::<ValueV>::empty());
        if !(v is Null) {
            assert(known_values(all) =~= seq![v] + known_values(rest));
        }
    } else {
        lemma_known_first(v, rest.drop_last());
        assert(all.drop_last() =~= seq![v] + rest.drop_last());
        assert(all.last() == rest.last());
        if !(v is Null) {
            assert(known_values(all) =~= seq![v] + known_values(rest));
        }
    }
}

proof fn lemma_arg_values(env: EnvV, a: ExprV, s: SchemaV, rows: Seq<Seq<ValueV>>, params: Seq<ValueV>, vals: Seq<ValueV>, i: int)
    requires
        0 <= i <= rows.len(),
        vals.len() == rows.len(),
        forall|k: int| 0 <= k < rows.len() ==> value_of(branch(env, k), a, Some((s, rows[k])), params) == Ok::<ValueV, ErrorV>(#[trigger] vals[k]),
    ensures
        arg_values(env, a, s, rows, params, i) == Ok::<Seq<ValueV>, ErrorV>(known_values(vals.skip(i))),
    decreases rows.len() - i,
{
    if i == rows.len() {
        reveal(Seq::filter);
        assert(vals.skip(i) =~= Seq::<ValueV>::empty());
        assert(known_values(vals.skip(i)) =~= Seq::<ValueV>::empty());
    } else {
        lemma_arg_values(env, a, s, rows, params, vals, i + 1);
        assert(value_of(branch(env, i), a, Some((s, rows[i])), params) == Ok::<ValueV, ErrorV>(vals[i]));
        assert(vals.skip(i) =~= seq![vals[i]] + vals.skip(i + 1));
        lemma_known_first(vals[i], vals.skip(i + 1));
    }
}

/// An aggregate is one of the values of its argument on all the rows, in their order, without
/// the NULLs; DISTINCT leaves of them the first of each that are equal. The argument must not
/// hold an aggregate itself.
pub proof fn aggregates_skip_nulls(
    env: EnvV,
    func: AggFunc,
    a: ExprV,
    sep: Option<Box<ExprV>>,
    s: SchemaV,
    rows: Seq<Seq<ValueV>>,
    params: Seq<ValueV>,
    vals: Seq<ValueV>,
)
    requires
        !mentions_aggregate(a),
        vals.len() == rows.len(),
        forall|k: int|
            0 <= k < rows.len() ==> value_of(branch(branch(env, 0), k), a, Some((s, rows[k])), params) == Ok::<ValueV, ErrorV>(#[trigger] vals[k]),
    ensures
        ({
            let sp = match sep {
                Some(x) => Some(value_of(branch(env, 1), *x, None, params)),
                None => None,
            };
            &&& aggregate_value(env, func, Some(Box::new(a)), false, sep, s, rows, params) == folded_value(env, func, known_values(vals), sp)
            &&& aggregate_value(env, func, Some(Box::new(a)), true, sep, s, rows, params) == folded_value(env, func, distinct_values(known_values(vals)), sp)
        }),
{
    lemma_arg_values(branch(env, 0), a, s, rows, params, vals, 0);
    assert(vals.skip(0) =~= vals);
}

/// `COUNT(*)` counts the rows; `COUNT(x)` the rows on which `x` is not NULL.
pub proof fn count_counts(
    env: EnvV,
    a: ExprV,
    s: SchemaV,
    rows: Seq<Seq<ValueV>>,
    params: Seq<ValueV>,
    vals: Seq<ValueV>,
)
    requires
        !mentions_aggregate(a),
        vals.len() == rows.len(),
        forall|k: int|
            0 <= k < rows.len() ==> value_of(branch(branch(env, 0), k), a, Some((s, rows[k])), params) == Ok::<ValueV, ErrorV>(#[trigger] vals[k]),
    ensures
        aggregate_value(env, AggFunc::Count, None, false, None, s, rows, params) == Ok::<ValueV, ErrorV>(
            ValueV::Integer(rows.len() as i64),
        ),
        aggregate_value(env, AggFunc::Count, Some(Box::new(a)), false, None, s, rows, params) == Ok::<ValueV, ErrorV>(
            ValueV::Integer(vals.filter(|v: ValueV| !(v is Null)).len() as i64),
        ),
{
    aggregates_skip_nulls(env, AggFunc::Count, a, None, s, rows, params, vals);
}

/// Without values COUNT is zero and every other aggregate is NULL.
pub proof fn aggregates_of_nothing(env: EnvV, sep: Option<Result<ValueV, ErrorV>>)
    ensures
        folded_value(env, AggFunc::Count, Seq::empty(), sep) == Ok::<ValueV, ErrorV>(ValueV::Integer(0)),
        folded_value(env, AggFunc::Sum, Seq::empty(), sep) == Ok::<ValueV, ErrorV>(ValueV::Null),
        folded_value(env, AggFunc::Avg, Seq::empty(), sep) == Ok::<ValueV, ErrorV>(ValueV::Null),
        folded_value(env, AggFunc::Min, Seq::empty(), sep) == Ok::<ValueV, ErrorV>(ValueV::Null),
        folded_value(env, AggFunc::Max, Seq::empty(), sep) == Ok::<ValueV, ErrorV>(ValueV::Null),
        folded_value(env, AggFunc::GroupConcat, Seq::empty(), sep) == Ok::<ValueV, ErrorV>(ValueV::Null),
{
}

// --- DISTINCT ---

/// DISTINCT leaves no two equal values, loses no value but for an equal one that stays, takes
/// every value that stays from those that were there, and keeps the first of those that are
/// equal: a value that equals none before it stays, at the end.
pub proof fn distinct_values_differ(vs: Seq<ValueV>, v: ValueV)
    ensures
        forall|i: int, j: int|
            0 <= i < j < distinct_values(vs).len() ==> !values_equal(#[trigger] distinct_values(vs)[i], #[trigger] distinct_values(vs)[j]),
        forall|i: int| 0 <= i < distinct_values(vs).len() ==> vs.contains(#[trigger] distinct_values(vs)[i]),
        forall|i: int|
            0 <= i < vs.len() ==> distinct_values(vs).contains(#[trigger] vs[i]) || exists|k: int|
                0 <= k < distinct_values(vs).len() && values_equal(#[trigger] distinct_values(vs)[k], vs[i]),
        (exists|k: int| 0 <= k < distinct_values(vs).len() && values_equal(#[trigger] distinct_values(vs)[k], v))
            ==> distinct_values(vs.push(v)) == distinct_values(vs),
        !(exists|k: int| 0 <= k < distinct_values(vs).len() && values_equal(#[trigger] distinct_values(vs)[k], v))
            ==> distinct_values(vs.push(v)) == distinct_values(vs).push(v),
    decreases vs.len(),
{
    assert(vs.push(v).drop_last() =~= vs);
    let d = distinct_values(vs);
    if vs.len() > 0 {
        distinct_values_differ(vs.drop_last(), v);
        let p = distinct_values(vs.drop_last());
        assert forall|i: int| 0 <= i < d.len() implies vs.contains(#[trigger] d[i]) by {
            if i < p.len() {
                assert(d[i] == p[i]);
                let k = choose|k: int| 0 <= k < vs.len() - 1 && vs.drop_last()[k] == p[i];
                assert(vs[k] == d[i]);
            } else {
                assert(d[i] == vs[vs.len() - 1]);
            }
        }
        assert forall|i: int| 0 <= i < vs.len() implies d.contains(#[trigger] vs[i]) || exists|k: int| 0 <= k < d.len() && values_equal(#[trigger] d[k], vs[i]) by {
            if i < vs.len() - 1 {
                assert(vs.drop_last()[i] == vs[i]);
                if p.contains(vs[i]) {
                    let k = choose|k: int| 0 <= k < p.len() && p[k] == vs[i];
                    assert(d[k] == vs[i]);
                } else {
                    let k = choose|k: int| 0 <= k < p.len() && values_equal(#[trigger] p[k], vs[i]);
                    assert(d[k] == p[k]);
                }
            } else if !has_equal(p, vs.last()) {
                assert(d[p.len() as int] == vs[i]);
            }
        }
    }
}

// --- SUM ---

proof fn lemma_sum_push(env: EnvV, vs: Seq<ValueV>, v: ValueV, i: int, ints: i64, reals: Option<u64>)
    requires
        0 <= i <= vs.len(),
    ensures
        sum_from(env, vs.push(v), i, ints, reals) == (match sum_from(env, vs, i, ints, reals) {
            Err(e) => Err(e),
            Ok(ValueV::Integer(n)) => sum_from(env, seq![v], 0, n, None),
            Ok(ValueV::Real(b)) => sum_from(env, seq![v], 0, 0, Some(b)),
            Ok(x) => Ok(x),
        }),
    decreases vs.len() - i,
{
    reveal_with_fuel(sum_from, 3);
    if i < vs.len() {
        assert(vs.push(v)[i] == vs[i]);
        match vs[i] {
            ValueV::Integer(n) => match reals {
                Some(b) => {
                    if let Ok(x) = crate::exec::ops::real_of(env, n) {
                        if let Ok(sum) = crate::exec::aggregate::plus(env, b, x) {
                            lemma_sum_push(env, vs, v, i + 1, ints, Some(sum));
                        }
                    }
                },
                None => {
                    if let Some(sum) = ints.checked_add(n) {
                        lemma_sum_push(env, vs, v, i + 1, sum, None);
                    }
                },
            },
            ValueV::Real(x) => {
                let start = match reals {
                    Some(b) => Ok(b),
                    None => crate::exec::ops::real_of(env, ints),
                };
                if let Ok(b) = start {
                    if let Ok(sum) = crate::exec::aggregate::plus(env, b, x) {
                        lemma_sum_push(env, vs, v, i + 1, ints, Some(sum));
                    }
                }
            },
            _ => {},
        }
    } else {
        assert(vs.push(v)[i] == v);
    }
}

/// SUM adds every value: of integers it is the integer sum, an error where that does not fit;
/// a real is added to the sum of all values before it, which becomes a real there; an integer
/// after a real is added as a real; and anything else is an error.
pub proof fn sum_adds_each_value(env: EnvV, vs: Seq<ValueV>, sep: Option<Result<ValueV, ErrorV>>, m: i64, n: i64, x: u64, b: u64, c: u64)
    requires
        vs.len() > 0,
    ensures
        folded_value(env, AggFunc::Sum, vs, sep) == Ok::<ValueV, ErrorV>(ValueV::Integer(m)) ==> (if i64::MIN <= m + n <= i64::MAX {
                folded_value(env, AggFunc::Sum, vs.push(ValueV::Integer(n)), sep) == Ok::<ValueV, ErrorV>(ValueV::Integer((m + n) as i64))
            } else {
                folded_value(env, AggFunc::Sum, vs.push(ValueV::Integer(n)), sep) is Err
            }),
        folded_value(env, AggFunc::Sum, vs, sep) == Ok::<ValueV, ErrorV>(ValueV::Integer(m)) && recorded(env, RealOpV::FromInt(m), b)
                && recorded(env, RealOpV::Binary(Binary::Add, b, x), c) ==> folded_value(env, AggFunc::Sum, vs.push(ValueV::Real(x)), sep) == Ok::<ValueV, ErrorV>(ValueV::Real(c)),
        folded_value(env, AggFunc::Sum, vs, sep) == Ok::<ValueV, ErrorV>(ValueV::Real(b)) && recorded(env, RealOpV::Binary(Binary::Add, b, x), c)
            ==> folded_value(env, AggFunc::Sum, vs.push(ValueV::Real(x)), sep) == Ok::<ValueV, ErrorV>(ValueV::Real(c)),
        folded_value(env, AggFunc::Sum, vs, sep) == Ok::<ValueV, ErrorV>(ValueV::Real(b)) && recorded(env, RealOpV::FromInt(n), x) && recorded(env, RealOpV::Binary(Binary::Add, b, x), c)
            ==> folded_value(env, AggFunc::Sum, vs.push(ValueV::Integer(n)), sep) == Ok::<ValueV, ErrorV>(ValueV::Real(c)),
        folded_value(env, AggFunc::Sum, vs, sep) is Err ==> forall|v: ValueV| #[trigger] folded_value(env, AggFunc::Sum, vs.push(v), sep) == folded_value(env, AggFunc::Sum, vs, sep),
        forall|v: ValueV| !(v is Integer) && !(v is Real) && !(v is Null) ==> #[trigger] folded_value(env, AggFunc::Sum, vs.push(v), sep) is Err,
        folded_value(env, AggFunc::Sum, seq![ValueV::Integer(n)], sep) == Ok::<ValueV, ErrorV>(ValueV::Integer(n)),
        recorded(env, RealOpV::FromInt(0), b) && recorded(env, RealOpV::Binary(Binary::Add, b, x), c)
            ==> folded_value(env, AggFunc::Sum, seq![ValueV::Real(x)], sep) == Ok::<ValueV, ErrorV>(ValueV::Real(c)),
{
    reveal_with_fuel(sum_from, 3);
    lemma_sum_push(env, vs, ValueV::Integer(n), 0, 0, None);
    lemma_sum_push(env, vs, ValueV::Real(x), 0, 0, None);
    lemma_sum_kind(env, vs, 0, 0, None);
    assert forall|v: ValueV| folded_value(env, AggFunc::Sum, vs, sep) is Err implies #[trigger] folded_value(env, AggFunc::Sum, vs.push(v), sep) == folded_value(env, AggFunc::Sum, vs, sep) by {
        lemma_sum_push(env, vs, v, 0, 0, None);
    }
    assert forall|v: ValueV| !(v is Integer) && !(v is Real) && !(v is Null) implies #[trigger] folded_value(env, AggFunc::Sum, vs.push(v), sep) is Err by {
        lemma_sum_push(env, vs, v, 0, 0, None);
    }
}

proof fn lemma_sum_kind(env: EnvV, vs: Seq<ValueV>, i: int, ints: i64, reals: Option<u64>)
    ensures
        sum_from(env, vs, i, ints, reals) is Ok ==> sum_from(env, vs, i, ints, reals)->Ok_0 is Integer || sum_from(env, vs, i, ints, reals)->Ok_0 is Real,
    decreases vs.len() - i,
{
    if 0 <= i < vs.len() {
        match vs[i] {
            ValueV::Integer(n) => match reals {
                Some(b) => {
                    if let Ok(x) = crate::exec::ops::real_of(env, n) {
                        if let Ok(sum) = crate::exec::aggregate::plus(env, b, x) {
                            lemma_sum_kind(env, vs, i + 1, ints, Some(sum));
                        }
                    }
                },
                None => {
                    if let Some(sum) = ints.checked_add(n) {
                        lemma_sum_kind(env, vs, i + 1, sum, None);
                    }
                },
            },
            ValueV::Real(x) => {
                let start = match reals {
                    Some(b) => Ok(b),
                    None => crate::exec::ops::real_of(env, ints),
                };
                if let Ok(b) = start {
                    if let Ok(sum) = crate::exec::aggregate::plus(env, b, x) {
                        lemma_sum_kind(env, vs, i + 1, ints, Some(sum));
                    }
                }
            },
            _ => {},
        }
    }
}

/// SUM of reals is the left fold of addition over all of them, from zero: the totals go from
/// one to the next by adding one value.
pub proof fn sum_folds_reals(env: EnvV, vs: Seq<ValueV>, sep: Option<Result<ValueV, ErrorV>>, totals: Seq<u64>)
    requires
        vs.len() > 0,
        totals.len() == vs.len() + 1,
        recorded(env, RealOpV::FromInt(0), totals[0]),
        forall|i: int|
            0 <= i < vs.len() ==> (#[trigger] vs[i]) is Real && recorded(env, RealOpV::Binary(Binary::Add, totals[i], vs[i]->Real_0), totals[i + 1]),
    ensures
        folded_value(env, AggFunc::Sum, vs, sep) == Ok::<ValueV, ErrorV>(ValueV::Real(totals.last())),
    decreases vs.len(),
{
    let v = vs.last();
    let n = vs.len() as int;
    assert(vs[n - 1] is Real);
    if n == 1 {
        assert(vs =~= seq![v]);
        sum_adds_each_value(env, vs, sep, 0, 0, v->Real_0, totals[0], totals[1]);
    } else {
        let before = vs.drop_last();
        assert forall|i: int| 0 <= i < before.len() implies (#[trigger] before[i]) is Real && recorded(env, RealOpV::Binary(Binary::Add, totals.drop_last()[i], before[i]->Real_0), totals.drop_last()[i + 1]) by {
            assert(before[i] == vs[i]);
        }
        sum_folds_reals(env, before, sep, totals.drop_last());
        sum_adds_each_value(env, before, sep, 0, 0, v->Real_0, totals[n - 1], totals[n]);
        assert(vs =~= before.push(v));
    }
}

// --- AVG ---

/// The real that stands for a number.
pub open spec fn stands_for(env: EnvV, v: ValueV, b: u64) -> bool {
    match v {
        ValueV::Real(x) => b == x,
        ValueV::Integer(n) => recorded(env, RealOpV::FromInt(n), b),
        _ => false,
    }
}

pub proof fn lemma_real_sum(env: EnvV, vs: Seq<ValueV>, reals: Seq<u64>, totals: Seq<u64>, i: int)
    requires
        0 <= i <= vs.len(),
        reals.len() == vs.len(),
        totals.len() == vs.len() + 1,
        forall|k: int| 0 <= k < vs.len() ==> stands_for(env, #[trigger] vs[k], reals[k]) && recorded(env, RealOpV::Binary(Binary::Add, totals[k], reals[k]), totals[k + 1]),
    ensures
        real_sum_from(env, vs, i, totals[i]) == Ok::<u64, ErrorV>(totals.last()),
    decreases vs.len() - i,
{
    if i < vs.len() {
        assert(stands_for(env, vs[i], reals[i]));
        lemma_real_sum(env, vs, reals, totals, i + 1);
    }
}

/// AVG adds all the values as reals, from zero, and divides the total by how many they are.
pub proof fn average_divides_the_sum(env: EnvV, vs: Seq<ValueV>, sep: Option<Result<ValueV, ErrorV>>, reals: Seq<u64>, totals: Seq<u64>, n: u64, q: u64)
    requires
        0 < vs.len() <= i64::MAX,
        reals.len() == vs.len(),
        totals.len() == vs.len() + 1,
        totals[0] == 0,
        forall|k: int| 0 <= k < vs.len() ==> stands_for(env, #[trigger] vs[k], reals[k]) && recorded(env, RealOpV::Binary(Binary::Add, totals[k], reals[k]), totals[k + 1]),
        recorded(env, RealOpV::FromInt(vs.len() as i64), n),
        recorded(env, RealOpV::Binary(Binary::Div, totals.last(), n), q),
    ensures
        folded_value(env, AggFunc::Avg, vs, sep) == Ok::<ValueV, ErrorV>(ValueV::Real(q)),
{
    lemma_real_sum(env, vs, reals, totals, 0);
}

// --- MIN and MAX ---

proof fn lemma_extreme_push(env: EnvV, vs: Seq<ValueV>, v: ValueV, i: int, best: ValueV, max: bool)
    requires
        0 <= i <= vs.len(),
    ensures
        extreme(env, vs.push(v), i, best, max) == (match extreme(env, vs, i, best, max) {
            Err(e) => Err(e),
            Ok(b) => extreme(env, seq![v], 0, b, max),
        }),
    decreases vs.len() - i,
{
    reveal_with_fuel(extreme, 3);
    if i < vs.len() {
        assert(vs.push(v)[i] == vs[i]);
        if let Ok(o) = value_order(env, vs[i], best) {
            let next = if o == Some(if max { Order::Greater } else { Order::Less }) { vs[i] } else { best };
            lemma_extreme_push(env, vs, v, i + 1, next, max);
        }
    } else {
        assert(vs.push(v)[i] == v);
    }
}

/// MIN takes another value where it is less than the least so far, MAX where it is greater than
/// the greatest so far; one value is its own MIN and MAX.
pub proof fn extremes_follow_the_order(env: EnvV, vs: Seq<ValueV>, sep: Option<Result<ValueV, ErrorV>>, v: ValueV, m: ValueV)
    requires
        vs.len() > 0,
    ensures
        folded_value(env, AggFunc::Min, seq![v], sep) == Ok::<ValueV, ErrorV>(v),
        folded_value(env, AggFunc::Max, seq![v], sep) == Ok::<ValueV, ErrorV>(v),
        folded_value(env, AggFunc::Min, vs, sep) == Ok::<ValueV, ErrorV>(m) ==> (match value_order(env, v, m) {
            Ok(Some(Order::Less)) => folded_value(env, AggFunc::Min, vs.push(v), sep) == Ok::<ValueV, ErrorV>(v),
            Ok(_) => folded_value(env, AggFunc::Min, vs.push(v), sep) == Ok::<ValueV, ErrorV>(m),
            Err(e) => folded_value(env, AggFunc::Min, vs.push(v), sep) == Err::<ValueV, ErrorV>(e),
        }),
        folded_value(env, AggFunc::Max, vs, sep) == Ok::<ValueV, ErrorV>(m) ==> (match value_order(env, v, m) {
            Ok(Some(Order::Greater)) => folded_value(env, AggFunc::Max, vs.push(v), sep) == Ok::<ValueV, ErrorV>(v),
            Ok(_) => folded_value(env, AggFunc::Max, vs.push(v), sep) == Ok::<ValueV, ErrorV>(m),
            Err(e) => folded_value(env, AggFunc::Max, vs.push(v), sep) == Err::<ValueV, ErrorV>(e),
        }),
        folded_value(env, AggFunc::Min, vs, sep) is Err ==> folded_value(env, AggFunc::Min, vs.push(v), sep) is Err,
        folded_value(env, AggFunc::Max, vs, sep) is Err ==> folded_value(env, AggFunc::Max, vs.push(v), sep) is Err,
{
    reveal_with_fuel(extreme, 3);
    lemma_extreme_push(env, vs, v, 1, vs[0], false);
    lemma_extreme_push(env, vs, v, 1, vs[0], true);
    assert(vs.push(v)[0] == vs[0]);
}

/// MIN and MAX of integers are among them, and bound them all.
pub proof fn extremes_bound_integers(env: EnvV, vs: Seq<ValueV>, sep: Option<Result<ValueV, ErrorV>>)
    requires
        vs.len() > 0,
        forall|i: int| 0 <= i < vs.len() ==> #[trigger] vs[i] is Integer,
    ensures
        ({
            let lo = folded_value(env, AggFunc::Min, vs, sep);
            let hi = folded_value(env, AggFunc::Max, vs, sep);
            &&& lo is Ok && vs.contains(lo->Ok_0) && lo->Ok_0 is Integer
            &&& hi is Ok && vs.contains(hi->Ok_0) && hi->Ok_0 is Integer
            &&& forall|i: int| 0 <= i < vs.len() ==> lo->Ok_0->Integer_0 <= (#[trigger] vs[i])->Integer_0 <= hi->Ok_0->Integer_0
        }),
    decreases vs.len(),
{
    let n = vs.len() as int;
    let v = vs.last();
    assert(vs[n - 1] is Integer);
    if n == 1 {
        assert(vs =~= seq![v]);
        extremes_follow_the_order(env, vs, sep, v, v);
        assert(vs[0] == v);
    } else {
        let before = vs.drop_last();
        assert forall|i: int| 0 <= i < before.len() implies #[trigger] before[i] is Integer by {
            assert(before[i] == vs[i]);
        }
        extremes_bound_integers(env, before, sep);
        let lo = folded_value(env, AggFunc::Min, before, sep)->Ok_0;
        let hi = folded_value(env, AggFunc::Max, before, sep)->Ok_0;
        extremes_follow_the_order(env, before, sep, v, lo);
        extremes_follow_the_order(env, before, sep, v, hi);
        assert(vs =~= before.push(v));
        let a = choose|k: int| 0 <= k < before.len() && before[k] == lo;
        let b = choose|k: int| 0 <= k < before.len() && before[k] == hi;
        assert(vs[a] == lo && vs[b] == hi && vs[n - 1] == v);
        assert forall|i: int| 0 <= i < vs.len() implies folded_value(env, AggFunc::Min, vs, sep)->Ok_0->Integer_0 <= (#[trigger] vs[i])->Integer_0 <= folded_value(env, AggFunc::Max, vs, sep)->Ok_0->Integer_0 by {
            if i < n - 1 {
                assert(before[i] == vs[i]);
            }
        }
    }
}

// --- GROUP_CONCAT ---

proof fn lemma_texts_push(vs: Seq<ValueV>, t: Seq<char>, i: int, sep: Seq<char>)
    requires
        0 <= i < vs.len(),
    ensures
        texts_from(vs.push(ValueV::Text(t)), i, sep) == (match texts_from(vs, i, sep) {
            Err(e) => Err(e),
            Ok(s) => Ok(s + sep + t),
        }),
    decreases vs.len() - i,
{
    reveal_with_fuel(texts_from, 3);
    let all = vs.push(ValueV::Text(t));
    assert(all[i] == vs[i]);
    if i + 1 < vs.len() {
        lemma_texts_push(vs, t, i + 1, sep);
        if let ValueV::Text(s) = vs[i] {
            if let Ok(rest) = texts_from(vs, i + 1, sep) {
                assert(s + sep + (rest + sep + t) =~= s + sep + rest + sep + t);
            }
        }
    } else {
        assert(all[i + 1] == ValueV::Text(t));
    }
}

/// GROUP_CONCAT puts the texts one after the other in their order, with the separator between
/// them; without one it is a comma.
pub proof fn texts_are_joined(env: EnvV, vs: Seq<ValueV>, t: Seq<char>, s: Seq<char>, sep: Seq<char>)
    requires
        vs.len() > 0,
    ensures
        folded_value(env, AggFunc::GroupConcat, seq![ValueV::Text(t)], Some(Ok(ValueV::Text(sep)))) == Ok::<ValueV, ErrorV>(ValueV::Text(t)),
        folded_value(env, AggFunc::GroupConcat, vs, Some(Ok(ValueV::Text(sep)))) == Ok::<ValueV, ErrorV>(ValueV::Text(s))
            ==> folded_value(env, AggFunc::GroupConcat, vs.push(ValueV::Text(t)), Some(Ok(ValueV::Text(sep)))) == Ok::<ValueV, ErrorV>(ValueV::Text(s + sep + t)),
        folded_value(env, AggFunc::GroupConcat, vs, None) == folded_value(env, AggFunc::GroupConcat, vs, Some(Ok(ValueV::Text(seq![',' ])))),
        folded_value(env, AggFunc::GroupConcat, vs, Some(Ok(ValueV::Null))) == folded_value(env, AggFunc::GroupConcat, vs, None),
        (exists|k: int| 0 <= k < vs.len() && !(#[trigger] vs[k] is Text)) ==> folded_value(env, AggFunc::GroupConcat, vs, Some(Ok(ValueV::Text(sep)))) is Err,
{
    reveal_strlit(",");
    assert(","@ =~= seq![',']);
    reveal_with_fuel(texts_from, 2);
    lemma_texts_push(vs, t, 0, sep);
    if exists|k: int| 0 <= k < vs.len() && !(#[trigger] vs[k] is Text) {
        let k = choose|k: int| 0 <= k < vs.len() && !(#[trigger] vs[k] is Text);
        lemma_texts_fail(vs, 0, k, sep);
    }
}

proof fn lemma_texts_fail(vs: Seq<ValueV>, i: int, k: int, sep: Seq<char>)
    requires
        0 <= i <= k < vs.len(),
        !(vs[k] is Text),
    ensures
        texts_from(vs, i, sep) is Err,
    decreases k - i,
{
    if i < k {
        lemma_texts_fail(vs, i + 1, k, sep);
    }
}

} // verus!
