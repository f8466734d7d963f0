//! Window functions.
use vstd::prelude::*;

use crate::error::{gives, sql_err, sql_lit, Error, ErrorV};
#[allow(unused_imports)]
use crate::error::sql_error;
use crate::exec::aggregate::mean_of;
#[allow(unused_imports)]
use crate::exec::aggregate::{mean, real_sum_from, rows_fit};
use crate::exec::aggregate::real_sum_of;
use crate::exec::check::find_expr;
use crate::exec::eval::{eval, eval_all, eval_const};
#[allow(unused_imports)]
use crate::exec::eval::{value_of, values_of};
use crate::exec::ops::{order_values, Env, EnvV};
#[allow(unused_imports)]
use crate::exec::ops::branch;
#[allow(unused_imports)]
use crate::exec::ops::value_order;
use crate::exec::rows::{group_positions, row_equals, sort_items};
#[allow(unused_imports)]
use crate::exec::rows::{
    byte_rows, groups_of, groups_ok, groups_v, in_range, keys_fit, rows_equal, sorted_items,
};
#[allow(unused_imports)]
use crate::exec::schema::SchemaV;
use crate::exec::schema::QuerySchema;
use crate::reals::Order;
use crate::record::{encode_values, Value, ValueV};
#[allow(unused_imports)]
use crate::record::{kind_name_of, record_bytes, row_view, rows_view};
use crate::sql::ast::{
    clone_expr, Expr, ExprV, FrameBound, OrderBy, OrderByV, WindowFrame, WindowFunc,
};
#[allow(unused_imports)]
use crate::sql::ast::{exprs_v, order_bys_v};
use crate::sql::walk::{parts_of, rebuild};
#[allow(unused_imports)]
use crate::sql::walk::{
    expr_size, exprs_size, key_exprs, lemma_exprs_size_elem, lemma_parts_size, parts, refs_v, with_parts,
};
use crate::text::cat;

verus! {

// --- keys of rows ---

/// The values of `es` on every row from `i` on.
pub open spec fn row_keys(
    env: EnvV,
    es: Seq<ExprV>,
    s: SchemaV,
    rows: Seq<Seq<ValueV>>,
    params: Seq<ValueV>,
    i: int,
) -> Result<Seq<Seq<ValueV>>, ErrorV>
    decreases rows.len() - i,
{
    if i < 0 || i >= rows.len() {
        Ok(Seq::empty())
    } else {
        match values_of(branch(env, i), es, Some((s, rows[i])), params) {
            Err(e) => Err(e),
            Ok(k) => match row_keys(env, es, s, rows, params, i + 1) {
                Err(e) => Err(e),
                Ok(rest) => Ok(seq![k] + rest),
            },
        }
    }
}

#[verifier::spinoff_prover]
pub fn row_keys_of(
    env: &Env,
    es: &Vec<Expr>,
    schema: &QuerySchema,
    rows: &Vec<Vec<Value>>,
    params: &Vec<Value>,
) -> (r: Result<Vec<Vec<Value>>, Error>)
    requires
        rows_fit(schema, rows@),
    ensures
        (match row_keys(env@, exprs_v(es@), schema@, rows_view(rows@), row_view(params@), 0) {
            Ok(ks) => r is Ok && rows_view(r->Ok_0@) == ks && keys_fit(r->Ok_0@, es@.len() as int)
                && ks.len() == rows@.len(),
            Err(e) => r is Err && r->Err_0@ == e,
        }),
{
    let mut out: Vec<Vec<Value>> = Vec::new();
    let n: usize = rows.len();
    let ghost ev = exprs_v(es@);
    let ghost rv = rows_view(rows@);
    let ghost pv = row_view(params@);
    let ghost sv = schema@;
    let ghost all = row_keys(env@, ev, sv, rv, pv, 0);
    assert(all is Ok ==> rows_view(out@) + all->Ok_0 =~= all->Ok_0);
    for i in 0..n
        invariant
            n == rows@.len(),
            rows_fit(schema, rows@),
            ev == exprs_v(es@),
            rv == rows_view(rows@),
            pv == row_view(params@),
            sv == schema@,
            all == row_keys(env@, ev, sv, rv, pv, 0),
            out@.len() == i,
            keys_fit(out@, es@.len() as int),
            (match row_keys(env@, ev, sv, rv, pv, i as int) {
                Ok(rest) => all == Ok::<Seq<Seq<ValueV>>, ErrorV>(rows_view(out@) + rest),
                Err(e) => all == Err::<Seq<Seq<ValueV>>, ErrorV>(e),
            }),
    {
        assert(rv[i as int] == row_view(rows@[i as int]@));
        let ghost before = rows_view(out@);
        match eval_all(&env.branch(i), es, Some((schema, &rows[i])), params) {
            Err(e) => {
                return Err(e);
            },
            Ok(k) => {
                let ghost kv = row_view(k@);
                out.push(k);
                proof {
                    assert(rows_view(out@) =~= before.push(kv));
                    let rest = row_keys(env@, ev, sv, rv, pv, i + 1);
                    if rest is Ok {
                        assert(before + (seq![kv] + rest->Ok_0) =~= rows_view(out@) + rest->Ok_0);
                    }
                }
            },
        }
    }
    assert(rows_view(out@) + Seq::<Seq<ValueV>>::empty() =~= rows_view(out@));
    Ok(out)
}

/// The expressions of sort keys.
pub fn order_exprs(order_by: &Vec<OrderBy>) -> (r: Vec<Expr>)
    ensures
        exprs_v(r@) == key_exprs(order_bys_v(order_by@)),
        r@.len() == order_by@.len(),
{
    let mut out: Vec<Expr> = Vec::new();
    let n: usize = order_by.len();
    for i in 0..n
        invariant
            n == order_by@.len(),
            out@.len() == i,
            forall|k: int| 0 <= k < i ==> (#[trigger] out@[k])@ == order_by@[k]@.expr,
    {
        out.push(clone_expr(&order_by[i].expr));
    }
    assert(exprs_v(out@) =~= key_exprs(order_bys_v(order_by@)));
    out
}

/// Which sort keys descend.
pub open spec fn descents(order_by: Seq<OrderByV>) -> Seq<bool> {
    Seq::new(order_by.len(), |i: int| order_by[i].desc)
}

pub fn descents_of(order_by: &Vec<OrderBy>) -> (r: Vec<bool>)
    ensures
        r@ == descents(order_bys_v(order_by@)),
        r@.len() == order_by@.len(),
{
    let mut out: Vec<bool> = Vec::new();
    let n: usize = order_by.len();
    for i in 0..n
        invariant
            n == order_by@.len(),
            out@.len() == i,
            forall|k: int| 0 <= k < i ==> #[trigger] out@[k] == order_by@[k]@.desc,
    {
        out.push(order_by[i].desc);
    }
    assert(out@ =~= descents(order_bys_v(order_by@)));
    out
}

/// The records of keys, by which they are told apart.
pub open spec fn key_records(keys: Seq<Seq<ValueV>>) -> Seq<Seq<u8>> {
    Seq::new(keys.len(), |i: int| record_bytes(keys[i]))
}

pub fn encode_keys(keys: &Vec<Vec<Value>>) -> (r: Vec<Vec<u8>>)
    ensures
        byte_rows(r@) == key_records(rows_view(keys@)),
        r@.len() == keys@.len(),
{
    let mut out: Vec<Vec<u8>> = Vec::new();
    let n: usize = keys.len();
    for i in 0..n
        invariant
            n == keys@.len(),
            out@.len() == i,
            forall|k: int| 0 <= k < i ==> (#[trigger] out@[k])@ == record_bytes(row_view(keys@[k]@)),
    {
        out.push(encode_values(keys[i].as_slice()));
    }
    assert(byte_rows(out@) =~= key_records(rows_view(keys@)));
    out
}

// --- frames ---

/// Where a bound of a frame lies for row `k` of `m`.
pub open spec fn bound_at(b: FrameBound, is_start: bool, k: int, m: int) -> int {
    match b {
        FrameBound::UnboundedPreceding => if is_start {
            0
        } else {
            -1
        },
        FrameBound::Preceding(n) => k - n,
        FrameBound::CurrentRow => k,
        FrameBound::Following(n) => k + n,
        FrameBound::UnboundedFollowing => if is_start {
            m
        } else {
            m - 1
        },
    }
}

/// The first and the last row of the frame of row `k` in a partition of `m` rows;
/// `None` where the frame is empty. Without a frame it goes from the start to the
/// row itself, or to the end where there is no order.
pub open spec fn frame_of(frame: Option<WindowFrame>, k: int, m: int, has_order: bool) -> Option<
    (int, int),
> {
    let (sb, eb) = match frame {
        Some(f) => (f.start, f.end),
        None => (
            FrameBound::UnboundedPreceding,
            if has_order {
                FrameBound::CurrentRow
            } else {
                FrameBound::UnboundedFollowing
            },
        ),
    };
    let lo = bound_at(sb, true, k, m);
    let hi = bound_at(eb, false, k, m);
    let start = if lo < 0 {
        0
    } else {
        lo
    };
    let end = if hi > m - 1 {
        m - 1
    } else {
        hi
    };
    if start <= end {
        Some((start, end))
    } else {
        None
    }
}

fn bound_of(b: FrameBound, is_start: bool, k: usize, m: usize) -> (r: i128)
    requires
        k < m,
    ensures
        r == bound_at(b, is_start, k as int, m as int),
        -0x1_0000_0000_0000_0000 < r < 0x2_0000_0000_0000_0000,
{
    match b {
        FrameBound::UnboundedPreceding => if is_start {
            0
        } else {
            -1
        },
        FrameBound::Preceding(n) => k as i128 - n as i128,
        FrameBound::CurrentRow => k as i128,
        FrameBound::Following(n) => k as i128 + n as i128,
        FrameBound::UnboundedFollowing => if is_start {
            m as i128
        } else {
            m as i128 - 1
        },
    }
}

pub fn frame_range(frame: Option<WindowFrame>, k: usize, m: usize, has_order: bool) -> (r: Option<
    (usize, usize),
>)
    requires
        k < m,
    ensures
        (match frame_of(frame, k as int, m as int, has_order) {
            Some((s, e)) => r is Some && (r->0).0 == s && (r->0).1 == e && 0 <= s <= e < m,
            None => r is None,
        }),
{
    let (sb, eb) = match frame {
        Some(f) => (f.start, f.end),
        None => (
            FrameBound::UnboundedPreceding,
            if has_order {
                FrameBound::CurrentRow
            } else {
                FrameBound::UnboundedFollowing
            },
        ),
    };
    let lo: i128 = bound_of(sb, true, k, m);
    let hi: i128 = bound_of(eb, false, k, m);
    let start: i128 = if lo < 0 {
        0
    } else {
        lo
    };
    let end: i128 = if hi > m as i128 - 1 {
        m as i128 - 1
    } else {
        hi
    };
    if start <= end {
        Some((start as usize, end as usize))
    } else {
        None
    }
}

// --- aggregates over a frame ---

pub open spec fn missing_argument() -> ErrorV {
    sql_error("falta el argumento de la función de ventana"@)
}

/// The first argument of a window function on a row.
pub open spec fn arg_on(
    env: EnvV,
    args: Seq<ExprV>,
    s: SchemaV,
    rows: Seq<Seq<ValueV>>,
    params: Seq<ValueV>,
    i: int,
) -> Result<ValueV, ErrorV> {
    if args.len() == 0 {
        Err(missing_argument())
    } else {
        value_of(branch(env, i), args[0], Some((s, rows[i])), params)
    }
}

/// How many rows of the frame from `j` on have a value.
pub open spec fn known_from(
    env: EnvV,
    args: Seq<ExprV>,
    s: SchemaV,
    rows: Seq<Seq<ValueV>>,
    params: Seq<ValueV>,
    frame: Seq<usize>,
    j: int,
) -> Result<nat, ErrorV>
    decreases frame.len() - j,
{
    if j < 0 || j >= frame.len() {
        Ok(0)
    } else {
        match arg_on(env, args, s, rows, params, frame[j] as int) {
            Err(e) => Err(e),
            Ok(v) => match known_from(env, args, s, rows, params, frame, j + 1) {
                Err(e) => Err(e),
                Ok(n) => Ok(
                    if v is Null {
                        n
                    } else {
                        n + 1
                    },
                ),
            },
        }
    }
}

/// The numbers of the frame from `j` on.
pub open spec fn numbers_from(
    env: EnvV,
    args: Seq<ExprV>,
    s: SchemaV,
    rows: Seq<Seq<ValueV>>,
    params: Seq<ValueV>,
    frame: Seq<usize>,
    j: int,
) -> Result<Seq<ValueV>, ErrorV>
    decreases frame.len() - j,
{
    if j < 0 || j >= frame.len() {
        Ok(Seq::empty())
    } else {
        match arg_on(env, args, s, rows, params, frame[j] as int) {
            Err(e) => Err(e),
            Ok(v) => if v is Null || v is Integer || v is Real {
                match numbers_from(env, args, s, rows, params, frame, j + 1) {
                    Err(e) => Err(e),
                    Ok(rest) => Ok(
                        if v is Null {
                            rest
                        } else {
                            seq![v] + rest
                        },
                    ),
                }
            } else {
                Err(sql_error("SUM/AVG requieren números, no "@ + kind_name_of(v)))
            },
        }
    }
}

pub open spec fn all_integers(vs: Seq<ValueV>) -> bool {
    forall|i: int| 0 <= i < vs.len() ==> #[trigger] vs[i] is Integer
}

/// The sum of integers, wrapped to their range.
pub open spec fn wrapping_sum(vs: Seq<ValueV>, i: int, acc: i64) -> i64
    decreases vs.len() - i,
{
    if i < 0 || i >= vs.len() {
        acc
    } else {
        wrapping_sum(vs, i + 1, acc.wrapping_add(vs[i]->Integer_0))
    }
}

/// The least (or greatest) value of the frame from `j` on and `best`.
pub open spec fn best_from(
    env: EnvV,
    max: bool,
    args: Seq<ExprV>,
    s: SchemaV,
    rows: Seq<Seq<ValueV>>,
    params: Seq<ValueV>,
    frame: Seq<usize>,
    j: int,
    best: Option<ValueV>,
) -> Result<ValueV, ErrorV>
    decreases frame.len() - j,
{
    if j < 0 || j >= frame.len() {
        match best {
            Some(b) => Ok(b),
            None => Ok(ValueV::Null),
        }
    } else {
        match arg_on(env, args, s, rows, params, frame[j] as int) {
            Err(e) => Err(e),
            Ok(v) => if v is Null {
                best_from(env, max, args, s, rows, params, frame, j + 1, best)
            } else {
                match best {
                    None => best_from(env, max, args, s, rows, params, frame, j + 1, Some(v)),
                    Some(b) => match value_order(env, v, b) {
                        Err(e) => Err(e),
                        Ok(o) => best_from(
                            env,
                            max,
                            args,
                            s,
                            rows,
                            params,
                            frame,
                            j + 1,
                            if o == Some(
                                if max {
                                    Order::Greater
                                } else {
                                    Order::Less
                                },
                            ) {
                                Some(v)
                            } else {
                                Some(b)
                            },
                        ),
                    },
                }
            },
        }
    }
}

/// An aggregate over the rows of a frame.
pub open spec fn frame_value(
    env: EnvV,
    func: WindowFunc,
    args: Seq<ExprV>,
    frame: Seq<usize>,
    s: SchemaV,
    rows: Seq<Seq<ValueV>>,
    params: Seq<ValueV>,
) -> Result<ValueV, ErrorV> {
    match func {
        WindowFunc::Count => if args.len() == 0 {
            Ok(ValueV::Integer(frame.len() as i64))
        } else {
            match known_from(env, args, s, rows, params, frame, 0) {
                Err(e) => Err(e),
                Ok(n) => Ok(ValueV::Integer(n as i64)),
            }
        },
        WindowFunc::Min => best_from(env, false, args, s, rows, params, frame, 0, None),
        WindowFunc::Max => best_from(env, true, args, s, rows, params, frame, 0, None),
        _ => match numbers_from(env, args, s, rows, params, frame, 0) {
            Err(e) => Err(e),
            Ok(vs) => if vs.len() == 0 {
                Ok(ValueV::Null)
            } else if func == WindowFunc::Sum && all_integers(vs) {
                Ok(ValueV::Integer(wrapping_sum(vs, 0, 0)))
            } else {
                match real_sum_from(env, vs, 0, 0) {
                    Err(e) => Err(e),
                    Ok(sum) => if func == WindowFunc::Sum {
                        Ok(ValueV::Real(sum))
                    } else {
                        mean(env, sum, vs.len() as int)
                    },
                }
            },
        },
    }
}

fn eval_on(
    env: &Env,
    args: &Vec<Expr>,
    schema: &QuerySchema,
    rows: &Vec<Vec<Value>>,
    params: &Vec<Value>,
    i: usize,
) -> (r: Result<Value, Error>)
    requires
        rows_fit(schema, rows@),
        i < rows@.len(),
    ensures
        gives(
            r,
            arg_on(env@, exprs_v(args@), schema@, rows_view(rows@), row_view(params@), i as int),
        ),
{
    assert(exprs_v(args@).len() == args@.len());
    if args.len() == 0 {
        return Err(sql_lit("falta el argumento de la función de ventana"));
    }
    assert(exprs_v(args@)[0] == args@[0]@);
    assert(rows_view(rows@)[i as int] == row_view(rows@[i as int]@));
    eval(&env.branch(i), &args[0], Some((schema, &rows[i])), params)
}

fn count_known(
    env: &Env,
    args: &Vec<Expr>,
    frame: &Vec<usize>,
    schema: &QuerySchema,
    rows: &Vec<Vec<Value>>,
    params: &Vec<Value>,
    j: usize,
) -> (r: Result<usize, Error>)
    requires
        rows_fit(schema, rows@),
        in_range(frame@, rows@.len() as int),
        j <= frame@.len(),
    ensures
        (match known_from(
            env@,
            exprs_v(args@),
            schema@,
            rows_view(rows@),
            row_view(params@),
            frame@,
            j as int,
        ) {
            Ok(n) => r is Ok && r->Ok_0 == n && n <= frame@.len() - j,
            Err(e) => r is Err && r->Err_0@ == e,
        }),
    decreases frame@.len() - j,
{
    assert(frame.len() == frame@.len());
    if j >= frame.len() {
        return Ok(0);
    }
    let v = match eval_on(env, args, schema, rows, params, frame[j]) {
        Err(e) => {
            return Err(e);
        },
        Ok(v) => v,
    };
    match count_known(env, args, frame, schema, rows, params, j + 1) {
        Err(e) => Err(e),
        Ok(n) => if matches!(v, Value::Null) {
            Ok(n)
        } else {
            Ok(n + 1)
        },
    }
}

#[verifier::spinoff_prover]
fn collect_numbers(
    env: &Env,
    args: &Vec<Expr>,
    frame: &Vec<usize>,
    schema: &QuerySchema,
    rows: &Vec<Vec<Value>>,
    params: &Vec<Value>,
) -> (r: Result<Vec<Value>, Error>)
    requires
        rows_fit(schema, rows@),
        in_range(frame@, rows@.len() as int),
    ensures
        (match numbers_from(
            env@,
            exprs_v(args@),
            schema@,
            rows_view(rows@),
            row_view(params@),
            frame@,
            0,
        ) {
            Ok(vs) => r is Ok && row_view(r->Ok_0@) == vs,
            Err(e) => r is Err && r->Err_0@ == e,
        }),
{
    let mut out: Vec<Value> = Vec::new();
    let n: usize = frame.len();
    let ghost av = exprs_v(args@);
    let ghost rv = rows_view(rows@);
    let ghost pv = row_view(params@);
    let ghost sv = schema@;
    let ghost all = numbers_from(env@, av, sv, rv, pv, frame@, 0);
    assert(all is Ok ==> row_view(out@) + all->Ok_0 =~= all->Ok_0);
    for j in 0..n
        invariant
            n == frame@.len(),
            rows_fit(schema, rows@),
            in_range(frame@, rows@.len() as int),
            av == exprs_v(args@),
            rv == rows_view(rows@),
            pv == row_view(params@),
            sv == schema@,
            all == numbers_from(env@, av, sv, rv, pv, frame@, 0),
            (match numbers_from(env@, av, sv, rv, pv, frame@, j as int) {
                Ok(rest) => all == Ok::<Seq<ValueV>, ErrorV>(row_view(out@) + rest),
                Err(e) => all == Err::<Seq<ValueV>, ErrorV>(e),
            }),
    {
        let ghost before = row_view(out@);
        let ghost rest = numbers_from(env@, av, sv, rv, pv, frame@, j + 1);
        let v = match eval_on(env, args, schema, rows, params, frame[j]) {
            Err(e) => {
                return Err(e);
            },
            Ok(v) => v,
        };
        match v {
            Value::Null => {},
            Value::Integer(_) | Value::Real(_) => {
                let ghost vv = v@;
                out.push(v);
                proof {
                    assert(row_view(out@) =~= before.push(vv));
                    if rest is Ok {
                        assert(before + (seq![vv] + rest->Ok_0) =~= row_view(out@) + rest->Ok_0);
                    }
                }
            },
            v => {
                return Err(sql_err(cat("SUM/AVG requieren números, no ", v.kind_name())));
            },
        }
    }
    assert(row_view(out@) + Seq::<ValueV>::empty() =~= row_view(out@));
    Ok(out)
}

fn integers_sum(vs: &Vec<Value>) -> (r: Option<i64>)
    ensures
        (match r {
            Some(n) => all_integers(row_view(vs@)) && n == wrapping_sum(row_view(vs@), 0, 0),
            None => !all_integers(row_view(vs@)),
        }),
{
    let n: usize = vs.len();
    let ghost all = row_view(vs@);
    let mut acc: i64 = 0;
    for i in 0..n
        invariant
            n == vs@.len(),
            all == row_view(vs@),
            forall|k: int| 0 <= k < i ==> #[trigger] all[k] is Integer,
            wrapping_sum(all, 0, 0) == wrapping_sum(all, i as int, acc),
    {
        assert(all[i as int] == vs@[i as int]@);
        match &vs[i] {
            Value::Integer(k) => {
                acc = acc.wrapping_add(*k);
            },
            _ => {
                return None;
            },
        }
    }
    Some(acc)
}

#[verifier::spinoff_prover]
fn best_of(
    env: &Env,
    max: bool,
    args: &Vec<Expr>,
    frame: &Vec<usize>,
    schema: &QuerySchema,
    rows: &Vec<Vec<Value>>,
    params: &Vec<Value>,
) -> (r: Result<Value, Error>)
    requires
        rows_fit(schema, rows@),
        in_range(frame@, rows@.len() as int),
    ensures
        gives(
            r,
            best_from(
                env@,
                max,
                exprs_v(args@),
                schema@,
                rows_view(rows@),
                row_view(params@),
                frame@,
                0,
                None,
            ),
        ),
{
    let n: usize = frame.len();
    let ghost av = exprs_v(args@);
    let ghost rv = rows_view(rows@);
    let ghost pv = row_view(params@);
    let ghost sv = schema@;
    let ghost all = best_from(env@, max, av, sv, rv, pv, frame@, 0, None);
    let mut best: Option<Value> = None;
    for j in 0..n
        invariant
            n == frame@.len(),
            rows_fit(schema, rows@),
            in_range(frame@, rows@.len() as int),
            av == exprs_v(args@),
            rv == rows_view(rows@),
            pv == row_view(params@),
            sv == schema@,
            all == best_from(env@, max, av, sv, rv, pv, frame@, 0, None),
            all == best_from(
                env@,
                max,
                av,
                sv,
                rv,
                pv,
                frame@,
                j as int,
                crate::exec::eval::opt_value(best),
            ),
    {
        let v = match eval_on(env, args, schema, rows, params, frame[j]) {
            Err(e) => {
                return Err(e);
            },
            Ok(v) => v,
        };
        if !matches!(v, Value::Null) {
            let better: bool = match &best {
                None => true,
                Some(b) => match order_values(env, &v, b) {
                    Err(e) => {
                        return Err(e);
                    },
                    Ok(Some(Order::Greater)) => max,
                    Ok(Some(Order::Less)) => !max,
                    Ok(_) => false,
                },
            };
            if better {
                best = Some(v);
            }
        }
    }
    match best {
        Some(b) => Ok(b),
        None => Ok(Value::Null),
    }
}

pub fn window_aggregate(
    env: &Env,
    func: WindowFunc,
    args: &Vec<Expr>,
    frame: &Vec<usize>,
    schema: &QuerySchema,
    rows: &Vec<Vec<Value>>,
    params: &Vec<Value>,
) -> (r: Result<Value, Error>)
    requires
        rows_fit(schema, rows@),
        in_range(frame@, rows@.len() as int),
    ensures
        gives(
            r,
            frame_value(
                env@,
                func,
                exprs_v(args@),
                frame@,
                schema@,
                rows_view(rows@),
                row_view(params@),
            ),
        ),
{
    assert(exprs_v(args@).len() == args@.len());
    match func {
        WindowFunc::Count => {
            if args.len() == 0 {
                return Ok(Value::Integer(frame.len() as i64));
            }
            match count_known(env, args, frame, schema, rows, params, 0) {
                Err(e) => Err(e),
                Ok(n) => Ok(Value::Integer(n as i64)),
            }
        },
        WindowFunc::Min => best_of(env, false, args, frame, schema, rows, params),
        WindowFunc::Max => best_of(env, true, args, frame, schema, rows, params),
        _ => {
            let vs = match collect_numbers(env, args, frame, schema, rows, params) {
                Err(e) => {
                    return Err(e);
                },
                Ok(vs) => vs,
            };
            if vs.len() == 0 {
                return Ok(Value::Null);
            }
            let is_sum: bool = func == WindowFunc::Sum;
            if is_sum {
                if let Some(n) = integers_sum(&vs) {
                    return Ok(Value::Integer(n));
                }
            }
            match real_sum_of(env, &vs) {
                Err(e) => Err(e),
                Ok(sum) => if is_sum {
                    Ok(Value::Real(sum))
                } else {
                    mean_of(env, sum, vs.len())
                },
            }
        },
    }
}

// --- one partition ---

/// Row `k` of a partition differs in its key from the row before it.
pub open spec fn new_peer(keys: Seq<Seq<ValueV>>, part: Seq<usize>, has_order: bool, k: int) -> bool {
    !has_order || k == 0 || !rows_equal(keys[part[k - 1] as int], keys[part[k] as int])
}

pub open spec fn rank_at(keys: Seq<Seq<ValueV>>, part: Seq<usize>, has_order: bool, k: int) -> int
    decreases k,
{
    if k <= 0 || new_peer(keys, part, has_order, k) {
        k + 1
    } else {
        rank_at(keys, part, has_order, k - 1)
    }
}

pub open spec fn dense_rank_at(keys: Seq<Seq<ValueV>>, part: Seq<usize>, has_order: bool, k: int) -> int
    decreases k,
{
    if k <= 0 {
        1
    } else {
        dense_rank_at(keys, part, has_order, k - 1) + (if new_peer(keys, part, has_order, k) {
            1int
        } else {
            0
        })
    }
}

/// The tile of row `p` when `m` rows are dealt into `k` tiles, the first ones being
/// one row larger where the rows do not divide evenly.
pub open spec fn tile_of(m: int, k: int, p: int) -> int {
    let base = m / k;
    let rem = m % k;
    let big = (base + 1) * rem;
    if p < big {
        p / (base + 1) + 1
    } else {
        rem + (p - big) / (if base < 1 {
            1
        } else {
            base
        }) + 1
    }
}

/// How many tiles NTILE makes.
pub open spec fn tile_count(env: EnvV, args: Seq<ExprV>, params: Seq<ValueV>) -> Result<int, ErrorV> {
    if args.len() == 0 {
        Err(missing_argument())
    } else {
        match value_of(branch(env, 0), args[0], None, params) {
            Err(e) => Err(e),
            Ok(ValueV::Integer(n)) if n >= 1 => Ok(n as int),
            Ok(_) => Err(sql_error("NTILE() requiere un entero positivo"@)),
        }
    }
}

/// How far LAG and LEAD look.
pub open spec fn shift_of(env: EnvV, args: Seq<ExprV>, params: Seq<ValueV>) -> Result<int, ErrorV> {
    if args.len() < 2 {
        Ok(1)
    } else {
        match value_of(branch(env, 0), args[1], None, params) {
            Err(e) => Err(e),
            Ok(ValueV::Integer(n)) => Ok(n as int),
            Ok(_) => Err(sql_error("el desplazamiento de LAG/LEAD debe ser entero"@)),
        }
    }
}

/// The value of a window function on row `k` of a partition, whose rows `part` lists
/// in their order.
pub open spec fn cell(
    env: EnvV,
    func: WindowFunc,
    args: Seq<ExprV>,
    frame: Option<WindowFrame>,
    keys: Seq<Seq<ValueV>>,
    has_order: bool,
    part: Seq<usize>,
    s: SchemaV,
    rows: Seq<Seq<ValueV>>,
    params: Seq<ValueV>,
    k: int,
) -> Result<ValueV, ErrorV> {
    let m = part.len() as int;
    match func {
        WindowFunc::RowNumber => Ok(ValueV::Integer((k + 1) as i64)),
        WindowFunc::Rank => Ok(ValueV::Integer(rank_at(keys, part, has_order, k) as i64)),
        WindowFunc::DenseRank => Ok(
            ValueV::Integer(dense_rank_at(keys, part, has_order, k) as i64),
        ),
        WindowFunc::Ntile => match tile_count(env, args, params) {
            Err(e) => Err(e),
            Ok(n) => Ok(ValueV::Integer(tile_of(m, n, k) as i64)),
        },
        WindowFunc::Lag | WindowFunc::Lead => match shift_of(env, args, params) {
            Err(e) => Err(e),
            Ok(d) => {
                let target = if func == WindowFunc::Lag {
                    k - d
                } else {
                    k + d
                };
                if 0 <= target < m {
                    arg_on(branch(branch(env, 1), k), args, s, rows, params, part[target] as int)
                } else if args.len() > 2 {
                    value_of(branch(branch(env, 2), k), args[2], Some((s, rows[part[k] as int])), params)
                } else {
                    Ok(ValueV::Null)
                }
            },
        },
        WindowFunc::FirstValue | WindowFunc::LastValue => match frame_of(frame, k, m, has_order) {
            None => Ok(ValueV::Null),
            Some((lo, hi)) => arg_on(
                branch(branch(env, 1), k),
                args,
                s,
                rows,
                params,
                part[if func == WindowFunc::FirstValue {
                    lo
                } else {
                    hi
                }] as int,
            ),
        },
        _ => frame_value(
            branch(branch(env, 1), k),
            func,
            args,
            match frame_of(frame, k, m, has_order) {
                Some((lo, hi)) => part.subrange(lo, hi + 1),
                None => Seq::empty(),
            },
            s,
            rows,
            params,
        ),
    }
}

/// The values on the rows of a partition from `k` on.
pub open spec fn cells(
    env: EnvV,
    func: WindowFunc,
    args: Seq<ExprV>,
    frame: Option<WindowFrame>,
    keys: Seq<Seq<ValueV>>,
    has_order: bool,
    part: Seq<usize>,
    s: SchemaV,
    rows: Seq<Seq<ValueV>>,
    params: Seq<ValueV>,
    k: int,
) -> Result<Seq<ValueV>, ErrorV>
    decreases part.len() - k,
{
    if k < 0 || k >= part.len() {
        Ok(Seq::empty())
    } else {
        match cell(env, func, args, frame, keys, has_order, part, s, rows, params, k) {
            Err(e) => Err(e),
            Ok(v) => match cells(
                env,
                func,
                args,
                frame,
                keys,
                has_order,
                part,
                s,
                rows,
                params,
                k + 1,
            ) {
                Err(e) => Err(e),
                Ok(rest) => Ok(seq![v] + rest),
            },
        }
    }
}

proof fn lemma_tiles(m: int, k: int)
    requires
        m >= 0,
        k >= 1,
    ensures
        0 <= m / k <= m,
        0 <= m % k <= m,
        m % k < k,
        0 <= (m / k + 1) * (m % k) <= m,
{
    assert(0 <= m / k <= m && 0 <= m % k <= m && m % k < k && m == k * (m / k) + m % k) by (
    nonlinear_arith)
        requires
            m >= 0,
            k >= 1,
    ;
    let b = m / k;
    let r = m % k;
    assert(0 <= (b + 1) * r <= m) by (nonlinear_arith)
        requires
            0 <= b,
            0 <= r < k,
            m == k * b + r,
    ;
}

proof fn lemma_quotient(x: int, d: int)
    requires
        x >= 0,
        d >= 1,
    ensures
        0 <= x / d <= x,
{
    assert(0 <= x / d <= x) by (nonlinear_arith)
        requires
            x >= 0,
            d >= 1,
    ;
}

fn tile(m: usize, k: u64, p: usize) -> (r: i64)
    requires
        k >= 1,
        p < m,
    ensures
        r == tile_of(m as int, k as int, p as int) as i64,
{
    proof {
        lemma_tiles(m as int, k as int);
    }
    let base: u64 = m as u64 / k;
    let rem: u64 = m as u64 % k;
    let big: u128 = mul_wide(base, rem);
    let at: u128 = p as u128;
    if at < big {
        let d: u128 = base as u128 + 1;
        proof {
            lemma_quotient(at as int, d as int);
        }
        let q: u128 = at / d + 1;
        q as i64
    } else {
        let d: u128 = if base < 1 {
            1
        } else {
            base as u128
        };
        let gap: u128 = at - big;
        proof {
            lemma_quotient(gap as int, d as int);
        }
        let q: u128 = rem as u128 + gap / d + 1;
        q as i64
    }
}

/// `(base + 1) * rem`.
fn mul_wide(base: u64, rem: u64) -> (r: u128)
    ensures
        r == (base + 1) * rem,
{
    assert((base + 1) * rem <= 0x1_0000_0000_0000_0000 * 0xFFFF_FFFF_FFFF_FFFF) by (nonlinear_arith)
        requires
            0 <= base <= 0xFFFF_FFFF_FFFF_FFFF,
            0 <= rem <= 0xFFFF_FFFF_FFFF_FFFF,
    ;
    (base as u128 + 1) * (rem as u128)
}

fn slice_items(v: &Vec<usize>, lo: usize, hi: usize) -> (r: Vec<usize>)
    requires
        lo <= hi <= v@.len(),
    ensures
        r@ == v@.subrange(lo as int, hi as int),
{
    let mut out: Vec<usize> = Vec::new();
    for i in lo..hi
        invariant
            lo <= hi <= v@.len(),
            out@ == v@.subrange(lo as int, i as int),
    {
        out.push(v[i]);
        assert(out@ =~= v@.subrange(lo as int, i + 1));
    }
    out
}

/// The value on row `k` of a function other than the ranks.
#[verifier::spinoff_prover]
fn eval_cell(
    env: &Env,
    func: WindowFunc,
    args: &Vec<Expr>,
    frame: Option<WindowFrame>,
    Ghost(keys): Ghost<Seq<Seq<ValueV>>>,
    has_order: bool,
    part: &Vec<usize>,
    schema: &QuerySchema,
    rows: &Vec<Vec<Value>>,
    params: &Vec<Value>,
    k: usize,
) -> (r: Result<Value, Error>)
    requires
        rows_fit(schema, rows@),
        in_range(part@, rows@.len() as int),
        k < part@.len(),
        func != WindowFunc::Rank,
        func != WindowFunc::DenseRank,
    ensures
        gives(
            r,
            cell(
                env@,
                func,
                exprs_v(args@),
                frame,
                keys,
                has_order,
                part@,
                schema@,
                rows_view(rows@),
                row_view(params@),
                k as int,
            ),
        ),
{
    let m: usize = part.len();
    assert(exprs_v(args@).len() == args@.len());
    match func {
        WindowFunc::RowNumber => Ok(Value::Integer((k + 1) as i64)),
        WindowFunc::Ntile => {
            if args.len() == 0 {
                return Err(sql_lit("falta el argumento de la función de ventana"));
            }
            assert(exprs_v(args@)[0] == args@[0]@);
            match eval_const(&env.branch(0), &args[0], params) {
                Err(e) => Err(e),
                Ok(Value::Integer(n)) if n >= 1 => Ok(Value::Integer(tile(m, n as u64, k))),
                Ok(_) => Err(sql_lit("NTILE() requiere un entero positivo")),
            }
        },
        WindowFunc::Lag | WindowFunc::Lead => {
            let d: i128 = if args.len() < 2 {
                1
            } else {
                assert(exprs_v(args@)[1] == args@[1]@);
                match eval_const(&env.branch(0), &args[1], params) {
                    Err(e) => {
                        return Err(e);
                    },
                    Ok(Value::Integer(n)) => n as i128,
                    Ok(_) => {
                        return Err(sql_lit("el desplazamiento de LAG/LEAD debe ser entero"));
                    },
                }
            };
            let target: i128 = if func == WindowFunc::Lag {
                k as i128 - d
            } else {
                k as i128 + d
            };
            if 0 <= target && target < m as i128 {
                eval_on(&env.branch(1).branch(k), args, schema, rows, params, part[target as usize])
            } else if args.len() > 2 {
                assert(exprs_v(args@)[2] == args@[2]@);
                let i: usize = part[k];
                assert(rows_view(rows@)[i as int] == row_view(rows@[i as int]@));
                eval(&env.branch(2).branch(k), &args[2], Some((schema, &rows[i])), params)
            } else {
                Ok(Value::Null)
            }
        },
        WindowFunc::FirstValue => match frame_range(frame, k, m, has_order) {
            None => Ok(Value::Null),
            Some((lo, _)) => eval_on(&env.branch(1).branch(k), args, schema, rows, params, part[lo]),
        },
        WindowFunc::LastValue => match frame_range(frame, k, m, has_order) {
            None => Ok(Value::Null),
            Some((_, hi)) => eval_on(&env.branch(1).branch(k), args, schema, rows, params, part[hi]),
        },
        _ => {
            let slice = match frame_range(frame, k, m, has_order) {
                Some((lo, hi)) => slice_items(part, lo, hi + 1),
                None => Vec::new(),
            };
            window_aggregate(&env.branch(1).branch(k), func, args, &slice, schema, rows, params)
        },
    }
}

#[verifier::spinoff_prover]
#[verifier::rlimit(40)]
pub fn window_partition(
    env: &Env,
    func: WindowFunc,
    args: &Vec<Expr>,
    frame: Option<WindowFrame>,
    keys: &Vec<Vec<Value>>,
    has_order: bool,
    part: &Vec<usize>,
    schema: &QuerySchema,
    rows: &Vec<Vec<Value>>,
    params: &Vec<Value>,
) -> (r: Result<Vec<Value>, Error>)
    requires
        rows_fit(schema, rows@),
        in_range(part@, rows@.len() as int),
        keys@.len() == rows@.len(),
    ensures
        (match cells(
            env@,
            func,
            exprs_v(args@),
            frame,
            rows_view(keys@),
            has_order,
            part@,
            schema@,
            rows_view(rows@),
            row_view(params@),
            0,
        ) {
            Ok(vs) => r is Ok && row_view(r->Ok_0@) == vs && vs.len() == part@.len(),
            Err(e) => r is Err && r->Err_0@ == e,
        }),
{
    let mut out: Vec<Value> = Vec::new();
    let m: usize = part.len();
    let ghost av = exprs_v(args@);
    let ghost kv = rows_view(keys@);
    let ghost rv = rows_view(rows@);
    let ghost pv = row_view(params@);
    let ghost sv = schema@;
    let ghost all = cells(env@, func, av, frame, kv, has_order, part@, sv, rv, pv, 0);
    assert(all is Ok ==> row_view(out@) + all->Ok_0 =~= all->Ok_0);
    let mut rank: usize = 0;
    let mut dense: usize = 0;
    for k in 0..m
        invariant
            m == part@.len(),
            rows_fit(schema, rows@),
            in_range(part@, rows@.len() as int),
            keys@.len() == rows@.len(),
            av == exprs_v(args@),
            kv == rows_view(keys@),
            rv == rows_view(rows@),
            pv == row_view(params@),
            sv == schema@,
            all == cells(env@, func, av, frame, kv, has_order, part@, sv, rv, pv, 0),
            out@.len() == k,
            k > 0 ==> rank == rank_at(kv, part@, has_order, k - 1) && dense == dense_rank_at(
                kv,
                part@,
                has_order,
                k - 1,
            ),
            dense <= k,
            (match cells(env@, func, av, frame, kv, has_order, part@, sv, rv, pv, k as int) {
                Ok(rest) => all == Ok::<Seq<ValueV>, ErrorV>(row_view(out@) + rest),
                Err(e) => all == Err::<Seq<ValueV>, ErrorV>(e),
            }),
    {
        let ghost before = row_view(out@);
        let fresh: bool = if k == 0 || !has_order {
            true
        } else {
            assert(kv[part@[k - 1] as int] == row_view(keys@[part@[k - 1] as int]@));
            assert(kv[part@[k as int] as int] == row_view(keys@[part@[k as int] as int]@));
            !row_equals(&keys[part[k - 1]], &keys[part[k]])
        };
        if fresh {
            rank = k + 1;
        }
        dense = if k == 0 {
            1
        } else if fresh {
            dense + 1
        } else {
            dense
        };
        let v = match func {
            WindowFunc::Rank => Value::Integer(rank as i64),
            WindowFunc::DenseRank => Value::Integer(dense as i64),
            _ => match eval_cell(
                env,
                func,
                args,
                frame,
                Ghost(kv),
                has_order,
                part,
                schema,
                rows,
                params,
                k,
            ) {
                Err(e) => {
                    return Err(e);
                },
                Ok(v) => v,
            },
        };
        let ghost vv = v@;
        out.push(v);
        proof {
            assert(row_view(out@) =~= before.push(vv));
            let rest = cells(env@, func, av, frame, kv, has_order, part@, sv, rv, pv, k + 1);
            if rest is Ok {
                assert(before + (seq![vv] + rest->Ok_0) =~= row_view(out@) + rest->Ok_0);
            }
        }
    }
    assert(row_view(out@) + Seq::<ValueV>::empty() =~= row_view(out@));
    Ok(out)
}

// --- all partitions ---

/// `result` with the values of a partition put on its rows.
pub open spec fn scattered(result: Seq<ValueV>, part: Seq<usize>, vals: Seq<ValueV>, k: int) -> Seq<
    ValueV,
>
    decreases part.len() - k,
{
    if k < 0 || k >= part.len() {
        result
    } else {
        scattered(result.update(part[k] as int, vals[k]), part, vals, k + 1)
    }
}

/// The values of a window function with the partitions from `g` on filled in.
pub open spec fn filled(
    env: EnvV,
    func: WindowFunc,
    args: Seq<ExprV>,
    frame: Option<WindowFrame>,
    keys: Seq<Seq<ValueV>>,
    descs: Seq<bool>,
    groups: Seq<Seq<usize>>,
    s: SchemaV,
    rows: Seq<Seq<ValueV>>,
    params: Seq<ValueV>,
    g: int,
    result: Seq<ValueV>,
) -> Result<Seq<ValueV>, ErrorV>
    decreases groups.len() - g,
{
    if g < 0 || g >= groups.len() {
        Ok(result)
    } else {
        let has_order = descs.len() > 0;
        let part = if has_order {
            sorted_items(env, keys, descs, groups[g])
        } else {
            Ok(groups[g])
        };
        match part {
            Err(e) => Err(e),
            Ok(p) => match cells(branch(branch(env, 2), g), func, args, frame, keys, has_order, p, s, rows, params, 0) {
                Err(e) => Err(e),
                Ok(vals) => filled(
                    env,
                    func,
                    args,
                    frame,
                    keys,
                    descs,
                    groups,
                    s,
                    rows,
                    params,
                    g + 1,
                    scattered(result, p, vals, 0),
                ),
            },
        }
    }
}

pub open spec fn nulls(n: nat) -> Seq<ValueV> {
    Seq::new(n, |i: int| ValueV::Null)
}

/// The value of a window function on every row.
pub open spec fn window_values(
    env: EnvV,
    w: ExprV,
    s: SchemaV,
    rows: Seq<Seq<ValueV>>,
    params: Seq<ValueV>,
) -> Result<Seq<ValueV>, ErrorV> {
    match w {
        ExprV::Window { func, args, partition_by, order_by, frame } => match row_keys(
            branch(env, 0),
            partition_by,
            s,
            rows,
            params,
            0,
        ) {
            Err(e) => Err(e),
            Ok(pk) => match row_keys(branch(env, 1), key_exprs(order_by), s, rows, params, 0) {
                Err(e) => Err(e),
                Ok(keys) => filled(
                    env,
                    func,
                    args,
                    frame,
                    keys,
                    descents(order_by),
                    groups_of(key_records(pk), rows.len()),
                    s,
                    rows,
                    params,
                    0,
                    nulls(rows.len()),
                ),
            },
        },
        _ => Ok(nulls(rows.len())),
    }
}

fn scatter(result: &mut Vec<Value>, part: &Vec<usize>, vals: &Vec<Value>)
    requires
        in_range(part@, old(result)@.len() as int),
        vals@.len() == part@.len(),
    ensures
        row_view(final(result)@) == scattered(row_view(old(result)@), part@, row_view(vals@), 0),
        final(result)@.len() == old(result)@.len(),
{
    let n: usize = part.len();
    let ghost start = row_view(result@);
    let ghost vv = row_view(vals@);
    for k in 0..n
        invariant
            n == part@.len() == vals@.len(),
            in_range(part@, result@.len() as int),
            vv == row_view(vals@),
            result@.len() == old(result)@.len(),
            scattered(start, part@, vv, 0) == scattered(row_view(result@), part@, vv, k as int),
    {
        let ghost before = row_view(result@);
        result.set(part[k], vals[k].clone());
        assert(row_view(result@) =~= before.update(part@[k as int] as int, vv[k as int]));
    }
}

#[verifier::spinoff_prover]
#[verifier::rlimit(40)]
fn fill(
    env: &Env,
    func: WindowFunc,
    args: &Vec<Expr>,
    frame: Option<WindowFrame>,
    keys: &Vec<Vec<Value>>,
    descs: &Vec<bool>,
    groups: &Vec<Vec<usize>>,
    schema: &QuerySchema,
    rows: &Vec<Vec<Value>>,
    params: &Vec<Value>,
) -> (r: Result<Vec<Value>, Error>)
    requires
        rows_fit(schema, rows@),
        groups_ok(groups@, rows@.len() as int),
        keys@.len() == rows@.len(),
        keys_fit(keys@, descs@.len() as int),
    ensures
        (match filled(
            env@,
            func,
            exprs_v(args@),
            frame,
            rows_view(keys@),
            descs@,
            groups_v(groups@),
            schema@,
            rows_view(rows@),
            row_view(params@),
            0,
            nulls(rows@.len()),
        ) {
            Ok(vs) => r is Ok && row_view(r->Ok_0@) == vs && vs.len() == rows@.len(),
            Err(e) => r is Err && r->Err_0@ == e,
        }),
{
    let mut result: Vec<Value> = Vec::new();
    let n: usize = rows.len();
    for i in 0..n
        invariant
            result@.len() == i,
            forall|k: int| 0 <= k < i ==> (#[trigger] result@[k])@ is Null,
    {
        result.push(Value::Null);
    }
    assert(row_view(result@) =~= nulls(rows@.len()));
    let m: usize = groups.len();
    let has_order: bool = descs.len() > 0;
    let ghost av = exprs_v(args@);
    let ghost kv = rows_view(keys@);
    let ghost gv = groups_v(groups@);
    let ghost rv = rows_view(rows@);
    let ghost pv = row_view(params@);
    let ghost sv = schema@;
    let ghost all = filled(
        env@,
        func,
        av,
        frame,
        kv,
        descs@,
        gv,
        sv,
        rv,
        pv,
        0,
        nulls(rows@.len()),
    );
    for g in 0..m
        invariant
            m == groups@.len(),
            rows_fit(schema, rows@),
            groups_ok(groups@, rows@.len() as int),
            keys@.len() == rows@.len(),
            keys_fit(keys@, descs@.len() as int),
            has_order == (descs@.len() > 0),
            av == exprs_v(args@),
            kv == rows_view(keys@),
            gv == groups_v(groups@),
            rv == rows_view(rows@),
            pv == row_view(params@),
            sv == schema@,
            result@.len() == rows@.len(),
            all == filled(
                env@,
                func,
                av,
                frame,
                kv,
                descs@,
                gv,
                sv,
                rv,
                pv,
                0,
                nulls(rows@.len()),
            ),
            all == filled(
                env@,
                func,
                av,
                frame,
                kv,
                descs@,
                gv,
                sv,
                rv,
                pv,
                g as int,
                row_view(result@),
            ),
    {
        assert(gv[g as int] == groups@[g as int]@);
        assert(in_range(groups@[g as int]@, rows@.len() as int));
        let part = if has_order {
            match sort_items(env, keys, descs, &groups[g]) {
                Err(e) => {
                    return Err(e);
                },
                Ok(p) => p,
            }
        } else {
            slice_items(&groups[g], 0, groups[g].len())
        };
        assert(!has_order ==> part@ =~= gv[g as int]);
        let vals = match window_partition(
            &env.branch(2).branch(g),
            func,
            args,
            frame,
            keys,
            has_order,
            &part,
            schema,
            rows,
            params,
        ) {
            Err(e) => {
                return Err(e);
            },
            Ok(v) => v,
        };
        scatter(&mut result, &part, &vals);
    }
    Ok(result)
}

/// The value of a window function on every row.
pub fn compute_window(
    env: &Env,
    w: &Expr,
    schema: &QuerySchema,
    rows: &Vec<Vec<Value>>,
    params: &Vec<Value>,
) -> (r: Result<Vec<Value>, Error>)
    requires
        rows_fit(schema, rows@),
        w is Window,
    ensures
        (match window_values(env@, w@, schema@, rows_view(rows@), row_view(params@)) {
            Ok(vs) => r is Ok && row_view(r->Ok_0@) == vs && vs.len() == rows@.len(),
            Err(e) => r is Err && r->Err_0@ == e,
        }),
{
    match w {
        Expr::Window { func, args, partition_by, order_by, frame } => {
            let pk = match row_keys_of(&env.branch(0), partition_by, schema, rows, params) {
                Err(e) => {
                    return Err(e);
                },
                Ok(k) => k,
            };
            let es = order_exprs(order_by);
            let keys = match row_keys_of(&env.branch(1), &es, schema, rows, params) {
                Err(e) => {
                    return Err(e);
                },
                Ok(k) => k,
            };
            let descs = descents_of(order_by);
            let records = encode_keys(&pk);
            let groups = group_positions(&records);
            assert(pk@.len() == rows@.len());
            fill(env, *func, args, *frame, &keys, &descs, &groups, schema, rows, params)
        },
        _ => Ok(Vec::new()),
    }
}

// --- windows in expressions ---

/// The first of some windows that is `e`.
pub open spec fn window_index(windows: Seq<ExprV>, e: ExprV, i: int) -> Option<int>
    decreases windows.len() - i,
{
    if i < 0 || i >= windows.len() {
        None
    } else if windows[i] == e {
        Some(i)
    } else {
        window_index(windows, e, i + 1)
    }
}

/// `e` with every window replaced by its value on row `i`.
pub open spec fn with_windows(e: ExprV, windows: Seq<ExprV>, cols: Seq<Seq<ValueV>>, i: int) -> ExprV
    decreases expr_size(e), 0nat,
{
    match e {
        ExprV::Window { func: _, args: _, partition_by: _, order_by: _, frame: _ } =>
        match window_index(windows, e, 0) {
            Some(w) => ExprV::Literal(cols[w][i]),
            None => e,
        },
        ExprV::Match { column: _, query: _, negated: _ } => e,
        ExprV::Aggregate { func: _, arg: _, distinct: _, sep: _ } => e,
        ExprV::InSubquery { expr: _, query: _, negated: _ } => e,
        _ => {
            proof {
                lemma_parts_size(e);
            }
            with_parts(e, all_with_windows(parts(e), windows, cols, i))
        },
    }
}

pub open spec fn all_with_windows(
    es: Seq<ExprV>,
    windows: Seq<ExprV>,
    cols: Seq<Seq<ValueV>>,
    i: int,
) -> Seq<ExprV>
    decreases exprs_size(es), 1 + es.len(),
{
    if es.len() == 0 {
        Seq::empty()
    } else {
        seq![with_windows(es[0], windows, cols, i)] + all_with_windows(
            es.drop_first(),
            windows,
            cols,
            i,
        )
    }
}

proof fn lemma_window_index(windows: Seq<ExprV>, e: ExprV, i: int, found: int)
    requires
        0 <= i <= found < windows.len(),
        windows[found] == e,
        forall|k: int| 0 <= k < found ==> #[trigger] windows[k] != e,
    ensures
        window_index(windows, e, i) == Some(found),
    decreases found - i,
{
    if i < found {
        lemma_window_index(windows, e, i + 1, found);
    }
}

proof fn lemma_no_window_index(windows: Seq<ExprV>, e: ExprV, i: int)
    requires
        0 <= i,
        !windows.contains(e),
    ensures
        window_index(windows, e, i) is None,
    decreases windows.len() - i,
{
    if i < windows.len() {
        assert(windows.contains(windows[i]));
        lemma_no_window_index(windows, e, i + 1);
    }
}

#[verifier::loop_isolation(false)]
#[verifier::spinoff_prover]
pub fn subst_windows(e: &Expr, windows: &Vec<&Expr>, cols: &Vec<Vec<Value>>, i: usize) -> (r: Expr)
    requires
        cols@.len() == windows@.len(),
        forall|k: int| 0 <= k < cols@.len() ==> i < (#[trigger] cols@[k])@.len(),
    ensures
        r@ == with_windows(e@, refs_v(windows@), rows_view(cols@), i as int),
    decreases expr_size(e@),
{
    let ghost wv = refs_v(windows@);
    let ghost cv = rows_view(cols@);
    match e {
        Expr::Window { .. } => match find_expr(windows, e) {
            Some(w) => {
                proof {
                    lemma_window_index(wv, e@, 0, w as int);
                }
                assert(cv[w as int] == row_view(cols@[w as int]@));
                Expr::Literal(cols[w][i].clone())
            },
            None => {
                proof {
                    lemma_no_window_index(wv, e@, 0);
                }
                clone_expr(e)
            },
        },
        Expr::Match { .. } | Expr::Aggregate { .. } | Expr::InSubquery { .. } => clone_expr(e),
        _ => {
            let ps = parts_of(e);
            let n: usize = ps.len();
            let ghost all = parts(e@);
            let ghost whole = all_with_windows(all, wv, cv, i as int);
            let mut out: Vec<Expr> = Vec::new();
            proof {
                lemma_parts_size(e@);
                assert(all.skip(0) =~= all);
                assert(exprs_v(out@) + whole =~= whole);
            }
            for j in 0..n
                invariant
                    n == ps@.len(),
                    refs_v(ps@) == all,
                    exprs_size(all) < expr_size(e@),
                    out@.len() == j,
                    whole == exprs_v(out@) + all_with_windows(all.skip(j as int), wv, cv, i as int),
            {
                proof {
                    lemma_exprs_size_elem(all, j as int);
                    assert(refs_v(ps@)[j as int] == ps@[j as int]@);
                    assert(all.skip(j as int).drop_first() =~= all.skip(j + 1));
                    assert(all.skip(j as int)[0] == all[j as int]);
                }
                let ghost before = exprs_v(out@);
                let p = subst_windows(ps[j], windows, cols, i);
                let ghost q = p@;
                out.push(p);
                proof {
                    assert(exprs_v(out@) =~= before.push(q));
                    let rest = all_with_windows(all.skip(j + 1), wv, cv, i as int);
                    assert(before + (seq![q] + rest) =~= exprs_v(out@) + rest);
                }
            }
            assert(all.skip(n as int) =~= Seq::empty());
            assert(exprs_v(out@) + Seq::<ExprV>::empty() =~= exprs_v(out@));
            rebuild(e, out)
        },
    }
}

} // verus!
