//! Aggregates over the rows of a group.
use vstd::prelude::*;
use vstd::string::StringExecFns;

use crate::error::{gives, sql_err, sql_lit, Error, ErrorV};
#[allow(unused_imports)]
use crate::error::sql_error;
use crate::exec::check::{col_outside_agg, validate_columns};
#[allow(unused_imports)]
use crate::exec::check::{loose_column, valid_columns};
use crate::exec::eval::{eval, eval_const};
#[allow(unused_imports)]
use crate::exec::eval::value_of;
use crate::exec::functions::extreme_of;
#[allow(unused_imports)]
use crate::exec::functions::extreme;
use crate::exec::ops::{value_equals, Env, EnvV};
#[allow(unused_imports)]
use crate::exec::ops::branch;
#[allow(unused_imports)]
use crate::exec::ops::{real_of, settled, values_equal};
#[allow(unused_imports)]
use crate::exec::schema::{row_width, SchemaV};
use crate::exec::schema::QuerySchema;
use crate::reals::{Binary, RealOp, RealOpV};
#[allow(unused_imports)]
use crate::reals::known_bits;
use crate::record::{Value, ValueV};
#[allow(unused_imports)]
use crate::record::{kind_name_of, row_view, rows_view};
use crate::sql::ast::{clone_expr, AggFunc, Expr, ExprV, SelectItem, SelectItemV};
#[allow(unused_imports)]
use crate::sql::ast::{exprs_v, select_items_v};
use crate::sql::walk::{parts_of, rebuild};
#[allow(unused_imports)]
use crate::sql::walk::{
    expr_size, exprs_size, lemma_exprs_size_elem, lemma_parts_size, mentions_aggregate, parts, refs_v,
    with_parts,
};
#[allow(unused_imports)]
use crate::catalog::strings_v;
use crate::text::{cat, cat3, u64_text};
#[allow(unused_imports)]
use crate::text::nat_text;

verus! {

/// Every row has a value for every column of the schema.
pub open spec fn rows_fit(s: &QuerySchema, rows: Seq<Vec<Value>>) -> bool {
    s.wf() && forall|i: int|
        0 <= i < rows.len() ==> (#[trigger] rows[i])@.len() == row_width(s@.tables)
}

// --- the values that are aggregated ---

/// The values of `arg` on the rows from `i` on, without the NULLs.
pub open spec fn arg_values(
    env: EnvV,
    arg: ExprV,
    s: SchemaV,
    rows: Seq<Seq<ValueV>>,
    params: Seq<ValueV>,
    i: int,
) -> Result<Seq<ValueV>, ErrorV>
    decreases rows.len() - i,
{
    if i < 0 || i >= rows.len() {
        Ok(Seq::empty())
    } else {
        match value_of(branch(env, i), arg, Some((s, rows[i])), params) {
            Err(e) => Err(e),
            Ok(v) => match arg_values(env, arg, s, rows, params, i + 1) {
                Err(e) => Err(e),
                Ok(rest) => if v is Null {
                    Ok(rest)
                } else {
                    Ok(seq![v] + rest)
                },
            },
        }
    }
}

/// A value equal to `v` is among `vs`.
pub open spec fn has_equal(vs: Seq<ValueV>, v: ValueV) -> bool {
    exists|k: int| 0 <= k < vs.len() && values_equal(#[trigger] vs[k], v)
}

/// Without the values that equal an earlier one.
pub open spec fn distinct_values(vs: Seq<ValueV>) -> Seq<ValueV>
    decreases vs.len(),
{
    if vs.len() == 0 {
        Seq::empty()
    } else {
        let seen = distinct_values(vs.drop_last());
        if has_equal(seen, vs.last()) {
            seen
        } else {
            seen.push(vs.last())
        }
    }
}

fn contains_equal(vs: &Vec<Value>, v: &Value) -> (r: bool)
    ensures
        r == has_equal(row_view(vs@), v@),
{
    let n: usize = vs.len();
    for i in 0..n
        invariant
            n == vs@.len(),
            forall|k: int| 0 <= k < i ==> !values_equal(#[trigger] row_view(vs@)[k], v@),
    {
        assert(row_view(vs@)[i as int] == vs@[i as int]@);
        if value_equals(&vs[i], v) {
            return true;
        }
    }
    false
}

fn dedup_values(vs: Vec<Value>) -> (r: Vec<Value>)
    ensures
        row_view(r@) == distinct_values(row_view(vs@)),
{
    let mut seen: Vec<Value> = Vec::new();
    let n: usize = vs.len();
    let ghost all = row_view(vs@);
    assert(all.take(0) =~= Seq::empty());
    for i in 0..n
        invariant
            n == vs@.len(),
            all == row_view(vs@),
            row_view(seen@) == distinct_values(all.take(i as int)),
    {
        assert(all.take(i + 1).drop_last() =~= all.take(i as int));
        let ghost before = row_view(seen@);
        if !contains_equal(&seen, &vs[i]) {
            seen.push(vs[i].clone());
            assert(row_view(seen@) =~= before.push(vs@[i as int]@));
        }
    }
    assert(all.take(n as int) =~= all);
    seen
}

#[verifier::spinoff_prover]
fn eval_arg(
    env: &Env,
    arg: &Expr,
    schema: &QuerySchema,
    rows: &Vec<Vec<Value>>,
    params: &Vec<Value>,
) -> (r: Result<Vec<Value>, Error>)
    requires
        rows_fit(schema, rows@),
    ensures
        (match arg_values(env@, arg@, schema@, rows_view(rows@), row_view(params@), 0) {
            Ok(vs) => r is Ok && row_view(r->Ok_0@) == vs,
            Err(e) => r is Err && r->Err_0@ == e,
        }),
{
    let mut out: Vec<Value> = Vec::new();
    let n: usize = rows.len();
    let ghost rv = rows_view(rows@);
    let ghost pv = row_view(params@);
    let ghost sv = schema@;
    let ghost all = arg_values(env@, arg@, sv, rv, pv, 0);
    assert(all is Ok ==> row_view(out@) + all->Ok_0 =~= all->Ok_0);
    for i in 0..n
        invariant
            n == rows@.len(),
            rows_fit(schema, rows@),
            rv == rows_view(rows@),
            pv == row_view(params@),
            sv == schema@,
            all == arg_values(env@, arg@, sv, rv, pv, 0),
            (match arg_values(env@, arg@, sv, rv, pv, i as int) {
                Ok(rest) => all == Ok::<Seq<ValueV>, ErrorV>(row_view(out@) + rest),
                Err(e) => all == Err::<Seq<ValueV>, ErrorV>(e),
            }),
    {
        assert(rv[i as int] == row_view(rows@[i as int]@));
        let ghost before = row_view(out@);
        let ghost rest = arg_values(env@, arg@, sv, rv, pv, i + 1);
        match eval(&env.branch(i), arg, Some((schema, &rows[i])), params) {
            Err(e) => {
                return Err(e);
            },
            Ok(Value::Null) => {},
            Ok(v) => {
                let ghost vv = v@;
                out.push(v);
                assert(row_view(out@) =~= before.push(vv));
                proof {
                    if rest is Ok {
                        assert(before + (seq![vv] + rest->Ok_0) =~= row_view(out@) + rest->Ok_0);
                    }
                }
            },
        }
    }
    assert(row_view(out@) + Seq::<ValueV>::empty() =~= row_view(out@));
    Ok(out)
}

// --- folding ---

/// A sum: of integers while there are only integers, of reals from the first real
/// on.
pub open spec fn sum_from(env: EnvV, vs: Seq<ValueV>, i: int, ints: i64, reals: Option<u64>) -> Result<
    ValueV,
    ErrorV,
>
    decreases vs.len() - i,
{
    if i < 0 || i >= vs.len() {
        match reals {
            Some(b) => Ok(ValueV::Real(b)),
            None => Ok(ValueV::Integer(ints)),
        }
    } else {
        match vs[i] {
            ValueV::Integer(n) => match reals {
                Some(b) => match real_of(env, n) {
                    Err(e) => Err(e),
                    Ok(x) => match plus(env, b, x) {
                        Err(e) => Err(e),
                        Ok(sum) => sum_from(env, vs, i + 1, ints, Some(sum)),
                    },
                },
                None => match ints.checked_add(n) {
                    Some(sum) => sum_from(env, vs, i + 1, sum, None),
                    None => Err(sql_error("desbordamiento de entero en SUM"@)),
                },
            },
            ValueV::Real(x) => {
                let start = match reals {
                    Some(b) => Ok(b),
                    None => real_of(env, ints),
                };
                match start {
                    Err(e) => Err(e),
                    Ok(b) => match plus(env, b, x) {
                        Err(e) => Err(e),
                        Ok(sum) => sum_from(env, vs, i + 1, ints, Some(sum)),
                    },
                }
            },
            _ => Err(sql_error("SUM requiere valores numéricos, no "@ + kind_name_of(vs[i]))),
        }
    }
}

/// The sum of two reals.
pub open spec fn plus(env: EnvV, a: u64, b: u64) -> Result<u64, ErrorV> {
    settled(known_bits(env.reals, RealOpV::Binary(Binary::Add, a, b)))
}

/// The sum of the numbers from `i` on, as reals, and `acc`.
pub open spec fn real_sum_from(env: EnvV, vs: Seq<ValueV>, i: int, acc: u64) -> Result<u64, ErrorV>
    decreases vs.len() - i,
{
    if i < 0 || i >= vs.len() {
        Ok(acc)
    } else {
        let x = match vs[i] {
            ValueV::Integer(n) => real_of(env, n),
            ValueV::Real(b) => Ok(b),
            _ => Err(sql_error("AVG requiere valores numéricos, no "@ + kind_name_of(vs[i]))),
        };
        match x {
            Err(e) => Err(e),
            Ok(b) => match plus(env, acc, b) {
                Err(e) => Err(e),
                Ok(sum) => real_sum_from(env, vs, i + 1, sum),
            },
        }
    }
}

/// A sum divided by a count.
pub open spec fn mean(env: EnvV, sum: u64, count: int) -> Result<ValueV, ErrorV> {
    match real_of(env, count as i64) {
        Err(e) => Err(e),
        Ok(n) => match settled(known_bits(env.reals, RealOpV::Binary(Binary::Div, sum, n))) {
            Err(e) => Err(e),
            Ok(b) => Ok(ValueV::Real(b)),
        },
    }
}

/// The texts from `i` on with a separator between them.
pub open spec fn texts_from(vs: Seq<ValueV>, i: int, sep: Seq<char>) -> Result<Seq<char>, ErrorV>
    decreases vs.len() - i,
{
    if i < 0 || i >= vs.len() {
        Ok(Seq::empty())
    } else {
        match vs[i] {
            ValueV::Text(s) => match texts_from(vs, i + 1, sep) {
                Err(e) => Err(e),
                Ok(rest) => if i + 1 < vs.len() {
                    Ok(s + sep + rest)
                } else {
                    Ok(s)
                },
            },
            _ => Err(
                sql_error(
                    "GROUP_CONCAT requiere TEXT, no "@ + kind_name_of(vs[i]) + " (usa CAST)"@,
                ),
            ),
        }
    }
}

/// The separator of GROUP_CONCAT; `v` is the value given for it.
pub open spec fn separator(v: Option<Result<ValueV, ErrorV>>) -> Result<Seq<char>, ErrorV> {
    match v {
        None => Ok(","@),
        Some(Err(e)) => Err(e),
        Some(Ok(ValueV::Text(s))) => Ok(s),
        Some(Ok(ValueV::Null)) => Ok(","@),
        Some(Ok(x)) => Err(
            sql_error("GROUP_CONCAT: el separador debe ser TEXT, no "@ + kind_name_of(x)),
        ),
    }
}

/// An aggregate of values that are not NULL.
pub open spec fn folded_value(
    env: EnvV,
    func: AggFunc,
    vs: Seq<ValueV>,
    sep: Option<Result<ValueV, ErrorV>>,
) -> Result<ValueV, ErrorV> {
    match func {
        AggFunc::Count => Ok(ValueV::Integer(vs.len() as i64)),
        AggFunc::GroupConcat => if vs.len() == 0 {
            Ok(ValueV::Null)
        } else {
            match separator(sep) {
                Err(e) => Err(e),
                Ok(sp) => match texts_from(vs, 0, sp) {
                    Err(e) => Err(e),
                    Ok(s) => Ok(ValueV::Text(s)),
                },
            }
        },
        AggFunc::Sum => if vs.len() == 0 {
            Ok(ValueV::Null)
        } else {
            sum_from(env, vs, 0, 0, None)
        },
        AggFunc::Avg => if vs.len() == 0 {
            Ok(ValueV::Null)
        } else {
            match real_sum_from(env, vs, 0, 0) {
                Err(e) => Err(e),
                Ok(sum) => mean(env, sum, vs.len() as int),
            }
        },
        AggFunc::Min => if vs.len() == 0 {
            Ok(ValueV::Null)
        } else {
            extreme(env, vs, 1, vs[0], false)
        },
        AggFunc::Max => if vs.len() == 0 {
            Ok(ValueV::Null)
        } else {
            extreme(env, vs, 1, vs[0], true)
        },
    }
}

/// The value of an aggregate over rows. NULLs do not count; `COUNT(*)` counts rows.
pub open spec fn aggregate_value(
    env: EnvV,
    func: AggFunc,
    arg: Option<Box<ExprV>>,
    distinct: bool,
    sep: Option<Box<ExprV>>,
    s: SchemaV,
    rows: Seq<Seq<ValueV>>,
    params: Seq<ValueV>,
) -> Result<ValueV, ErrorV> {
    match arg {
        None => Ok(ValueV::Integer(rows.len() as i64)),
        Some(a) => if mentions_aggregate(*a) {
            Err(sql_error("agregados anidados"@))
        } else {
            match arg_values(branch(env, 0), *a, s, rows, params, 0) {
                Err(e) => Err(e),
                Ok(vs) => folded_value(
                    env,
                    func,
                    if distinct {
                        distinct_values(vs)
                    } else {
                        vs
                    },
                    match sep {
                        Some(x) => Some(value_of(branch(env, 1), *x, None, params)),
                        None => None,
                    },
                ),
            }
        },
    }
}

fn add_reals(env: &Env, a: u64, b: u64) -> (r: Result<u64, Error>)
    ensures
        (match plus(env@, a, b) {
            Ok(x) => r == Ok::<u64, Error>(x),
            Err(e) => r is Err && r->Err_0@ == e,
        }),
{
    env.bits(RealOp::Binary(Binary::Add, a, b))
}

fn sum_of(env: &Env, vs: &Vec<Value>) -> (r: Result<Value, Error>)
    ensures
        gives(r, sum_from(env@, row_view(vs@), 0, 0, None)),
{
    let n: usize = vs.len();
    let ghost all = row_view(vs@);
    let mut ints: i64 = 0;
    let mut reals: Option<u64> = None;
    for i in 0..n
        invariant
            n == vs@.len(),
            all == row_view(vs@),
            sum_from(env@, all, 0, 0, None) == sum_from(env@, all, i as int, ints, reals),
    {
        assert(all[i as int] == vs@[i as int]@);
        match &vs[i] {
            Value::Integer(k) => match reals {
                Some(b) => {
                    let x: u64 = match env.nearest(*k) {
                        Ok(x) => x,
                        Err(e) => {
                            return Err(e);
                        },
                    };
                    match add_reals(env, b, x) {
                        Ok(sum) => {
                            reals = Some(sum);
                        },
                        Err(e) => {
                            return Err(e);
                        },
                    }
                },
                None => match ints.checked_add(*k) {
                    Some(sum) => {
                        ints = sum;
                    },
                    None => {
                        return Err(sql_lit("desbordamiento de entero en SUM"));
                    },
                },
            },
            Value::Real(x) => {
                let b: u64 = match reals {
                    Some(b) => b,
                    None => match env.nearest(ints) {
                        Ok(b) => b,
                        Err(e) => {
                            return Err(e);
                        },
                    },
                };
                match add_reals(env, b, *x) {
                    Ok(sum) => {
                        reals = Some(sum);
                    },
                    Err(e) => {
                        return Err(e);
                    },
                }
            },
            v => {
                return Err(sql_err(cat("SUM requiere valores numéricos, no ", v.kind_name())));
            },
        }
    }
    match reals {
        Some(b) => Ok(Value::Real(b)),
        None => Ok(Value::Integer(ints)),
    }
}

pub fn real_sum_of(env: &Env, vs: &Vec<Value>) -> (r: Result<u64, Error>)
    ensures
        (match real_sum_from(env@, row_view(vs@), 0, 0) {
            Ok(x) => r == Ok::<u64, Error>(x),
            Err(e) => r is Err && r->Err_0@ == e,
        }),
{
    let n: usize = vs.len();
    let ghost all = row_view(vs@);
    let mut acc: u64 = 0;
    for i in 0..n
        invariant
            n == vs@.len(),
            all == row_view(vs@),
            real_sum_from(env@, all, 0, 0) == real_sum_from(env@, all, i as int, acc),
    {
        assert(all[i as int] == vs@[i as int]@);
        let x: u64 = match &vs[i] {
            Value::Integer(k) => match env.nearest(*k) {
                Ok(x) => x,
                Err(e) => {
                    return Err(e);
                },
            },
            Value::Real(b) => *b,
            v => {
                return Err(sql_err(cat("AVG requiere valores numéricos, no ", v.kind_name())));
            },
        };
        match add_reals(env, acc, x) {
            Ok(sum) => {
                acc = sum;
            },
            Err(e) => {
                return Err(e);
            },
        }
    }
    Ok(acc)
}

pub fn mean_of(env: &Env, sum: u64, count: usize) -> (r: Result<Value, Error>)
    ensures
        gives(r, mean(env@, sum, count as int)),
{
    let n: u64 = match env.nearest(count as i64) {
        Ok(n) => n,
        Err(e) => {
            return Err(e);
        },
    };
    match env.bits(RealOp::Binary(Binary::Div, sum, n)) {
        Ok(b) => Ok(Value::Real(b)),
        Err(e) => Err(e),
    }
}

fn join_texts(vs: &Vec<Value>, i: usize, sep: &str) -> (r: Result<String, Error>)
    requires
        i <= vs@.len(),
    ensures
        gives(r, texts_from(row_view(vs@), i as int, sep@)),
    decreases vs@.len() - i,
{
    if i >= vs.len() {
        return Ok(String::new());
    }
    assert(row_view(vs@)[i as int] == vs@[i as int]@);
    match &vs[i] {
        Value::Text(s) => match join_texts(vs, i + 1, sep) {
            Err(e) => Err(e),
            Ok(rest) => if i + 1 < vs.len() {
                Ok(cat3(s.as_str(), sep, rest.as_str()))
            } else {
                Ok(s.clone())
            },
        },
        v => Err(
            sql_err(cat3("GROUP_CONCAT requiere TEXT, no ", v.kind_name(), " (usa CAST)")),
        ),
    }
}

fn separator_of(env: &Env, sep: Option<&Expr>, params: &Vec<Value>) -> (r: Result<String, Error>)
    ensures
        gives(
            r,
            separator(
                match sep {
                    Some(x) => Some(value_of(env@, x@, None, row_view(params@))),
                    None => None,
                },
            ),
        ),
{
    match sep {
        None => Ok(",".to_owned()),
        Some(x) => match eval_const(env, x, params) {
            Err(e) => Err(e),
            Ok(Value::Text(s)) => Ok(s),
            Ok(Value::Null) => Ok(",".to_owned()),
            Ok(v) => Err(
                sql_err(cat("GROUP_CONCAT: el separador debe ser TEXT, no ", v.kind_name())),
            ),
        },
    }
}

/// The boxed expression that a reference stands for.
pub open spec fn boxed(o: Option<&Expr>) -> Option<Box<ExprV>> {
    match o {
        Some(x) => Some(Box::new(x@)),
        None => None,
    }
}

#[verifier::spinoff_prover]
pub fn compute_aggregate(
    env: &Env,
    func: AggFunc,
    arg: Option<&Expr>,
    distinct: bool,
    sep: Option<&Expr>,
    schema: &QuerySchema,
    rows: &Vec<Vec<Value>>,
    params: &Vec<Value>,
) -> (r: Result<Value, Error>)
    requires
        rows_fit(schema, rows@),
    ensures
        gives(
            r,
            aggregate_value(
                env@,
                func,
                boxed(arg),
                distinct,
                boxed(sep),
                schema@,
                rows_view(rows@),
                row_view(params@),
            ),
        ),
{
    let a = match arg {
        None => {
            return Ok(Value::Integer(rows.len() as i64));
        },
        Some(a) => a,
    };
    if a.has_aggregate() {
        return Err(sql_lit("agregados anidados"));
    }
    let mut values = match eval_arg(&env.branch(0), a, schema, rows, params) {
        Ok(vs) => vs,
        Err(e) => {
            return Err(e);
        },
    };
    if distinct {
        values = dedup_values(values);
    }
    let ghost vs = row_view(values@);
    match func {
        AggFunc::Count => Ok(Value::Integer(values.len() as i64)),
        AggFunc::GroupConcat => {
            if values.len() == 0 {
                return Ok(Value::Null);
            }
            match separator_of(&env.branch(1), sep, params) {
                Err(e) => Err(e),
                Ok(sp) => match join_texts(&values, 0, sp.as_str()) {
                    Err(e) => Err(e),
                    Ok(s) => Ok(Value::Text(s)),
                },
            }
        },
        AggFunc::Sum => if values.len() == 0 {
            Ok(Value::Null)
        } else {
            sum_of(env, &values)
        },
        AggFunc::Avg => if values.len() == 0 {
            Ok(Value::Null)
        } else {
            match real_sum_of(env, &values) {
                Err(e) => Err(e),
                Ok(sum) => mean_of(env, sum, values.len()),
            }
        },
        AggFunc::Min => if values.len() == 0 {
            Ok(Value::Null)
        } else {
            extreme_of(env, &values, false)
        },
        AggFunc::Max => if values.len() == 0 {
            Ok(Value::Null)
        } else {
            extreme_of(env, &values, true)
        },
    }
}

// --- aggregates in expressions ---

/// `e` with every aggregate replaced by its value over `rows`.
pub open spec fn with_aggregates(
    env: EnvV,
    e: ExprV,
    s: SchemaV,
    rows: Seq<Seq<ValueV>>,
    params: Seq<ValueV>,
) -> Result<ExprV, ErrorV>
    decreases expr_size(e), 0nat,
{
    match e {
        ExprV::Aggregate { func, arg, distinct, sep } => match aggregate_value(
            env,
            func,
            arg,
            distinct,
            sep,
            s,
            rows,
            params,
        ) {
            Err(x) => Err(x),
            Ok(v) => Ok(ExprV::Literal(v)),
        },
        ExprV::InSubquery { expr: _, query: _, negated: _ } => Ok(e),
        ExprV::Window { func: _, args: _, partition_by: _, order_by: _, frame: _ } => Ok(e),
        _ => {
            proof {
                lemma_parts_size(e);
            }
            match all_with_aggregates(env, parts(e), s, rows, params) {
                Err(x) => Err(x),
                Ok(ps) => Ok(with_parts(e, ps)),
            }
        },
    }
}

pub open spec fn all_with_aggregates(
    env: EnvV,
    es: Seq<ExprV>,
    s: SchemaV,
    rows: Seq<Seq<ValueV>>,
    params: Seq<ValueV>,
) -> Result<Seq<ExprV>, ErrorV>
    decreases exprs_size(es), 1 + es.len(),
{
    if es.len() == 0 {
        Ok(Seq::empty())
    } else {
        match with_aggregates(branch(env, es.len() as int), es[0], s, rows, params) {
            Err(x) => Err(x),
            Ok(p) => match all_with_aggregates(env, es.drop_first(), s, rows, params) {
                Err(x) => Err(x),
                Ok(rest) => Ok(seq![p] + rest),
            },
        }
    }
}

fn opt_ref(o: &Option<Box<Expr>>) -> (r: Option<&Expr>)
    ensures
        (match o {
            Some(x) => r == Some(&**x),
            None => r is None,
        }),
{
    match o {
        Some(x) => Some(x),
        None => None,
    }
}

#[verifier::loop_isolation(false)]
#[verifier::spinoff_prover]
#[verifier::rlimit(40)]
pub fn fold_aggregates(
    env: &Env,
    e: &Expr,
    schema: &QuerySchema,
    rows: &Vec<Vec<Value>>,
    params: &Vec<Value>,
) -> (r: Result<Expr, Error>)
    requires
        rows_fit(schema, rows@),
    ensures
        gives(r, with_aggregates(env@, e@, schema@, rows_view(rows@), row_view(params@))),
    decreases expr_size(e@),
{
    match e {
        Expr::Aggregate { func, arg, distinct, sep } => match compute_aggregate(
            env,
            *func,
            opt_ref(arg),
            *distinct,
            opt_ref(sep),
            schema,
            rows,
            params,
        ) {
            Ok(v) => Ok(Expr::Literal(v)),
            Err(x) => Err(x),
        },
        Expr::InSubquery { .. } | Expr::Window { .. } => Ok(clone_expr(e)),
        _ => {
            let ps = parts_of(e);
            let n: usize = ps.len();
            let ghost all = parts(e@);
            let ghost rv = rows_view(rows@);
            let ghost pv = row_view(params@);
            let ghost whole = all_with_aggregates(env@, all, schema@, rv, pv);
            let mut out: Vec<Expr> = Vec::new();
            proof {
                lemma_parts_size(e@);
                assert(all.skip(0) =~= all);
                assert(whole is Ok ==> exprs_v(out@) + whole->Ok_0 =~= whole->Ok_0);
            }
            for i in 0..n
                invariant
                    n == ps@.len(),
                    refs_v(ps@) == all,
                    exprs_size(all) < expr_size(e@),
                    out@.len() == i,
                    (match all_with_aggregates(env@, all.skip(i as int), schema@, rv, pv) {
                        Ok(rest) => whole == Ok::<Seq<ExprV>, ErrorV>(exprs_v(out@) + rest),
                        Err(x) => whole == Err::<Seq<ExprV>, ErrorV>(x),
                    }),
            {
                proof {
                    lemma_exprs_size_elem(all, i as int);
                    assert(refs_v(ps@)[i as int] == ps@[i as int]@);
                    assert(all.skip(i as int).drop_first() =~= all.skip(i + 1));
                    assert(all.skip(i as int)[0] == all[i as int]);
                }
                let ghost before = exprs_v(out@);
                match fold_aggregates(&env.branch(n - i), ps[i], schema, rows, params) {
                    Err(x) => {
                        return Err(x);
                    },
                    Ok(p) => {
                        let ghost q = p@;
                        out.push(p);
                        proof {
                            assert(exprs_v(out@) =~= before.push(q));
                            let rest = all_with_aggregates(env@, all.skip(i + 1), schema@, rv, pv);
                            if rest is Ok {
                                assert(before + (seq![q] + rest->Ok_0) =~= exprs_v(out@)
                                    + rest->Ok_0);
                            }
                        }
                    },
                }
            }
            assert(all.skip(n as int) =~= Seq::empty());
            assert(exprs_v(out@) + Seq::<ExprV>::empty() =~= exprs_v(out@));
            Ok(rebuild(e, out))
        },
    }
}

// --- a projection of aggregates only ---

/// The output name of an item without an alias or a name of its own.
pub open spec fn numbered(i: int) -> Seq<char> {
    "col"@ + nat_text((i + 1) as nat)
}

pub fn numbered_name(i: usize) -> (r: String)
    requires
        i < usize::MAX,
    ensures
        r@ == numbered(i as int),
{
    cat("col", u64_text((i + 1) as u64).as_str())
}

/// The names and the only row of a projection of aggregates, from item `i` on.
pub open spec fn aggregate_items(
    env: EnvV,
    items: Seq<SelectItemV>,
    s: SchemaV,
    rows: Seq<Seq<ValueV>>,
    params: Seq<ValueV>,
    i: int,
) -> Result<(Seq<Seq<char>>, Seq<ValueV>), ErrorV>
    decreases items.len() - i,
{
    if i < 0 || i >= items.len() {
        Ok((Seq::empty(), Seq::empty()))
    } else {
        match items[i] {
            SelectItemV::Star => Err(sql_error("'*' no se puede combinar con agregados"@)),
            SelectItemV::Expr { expr, alias } => match loose_column(expr) {
                Some(name) => Err(
                    sql_error(
                        "sin GROUP BY, la columna "@ + name + " debe ir dentro de un agregado"@,
                    ),
                ),
                None => match valid_columns(expr, s) {
                    Err(e) => Err(e),
                    Ok(_) => match with_aggregates(branch(branch(env, i), 0), expr, s, rows, params) {
                        Err(e) => Err(e),
                        Ok(f) => match value_of(branch(branch(env, i), 1), f, None, params) {
                            Err(e) => Err(e),
                            Ok(v) => match aggregate_items(env, items, s, rows, params, i + 1) {
                                Err(e) => Err(e),
                                Ok((names, vals)) => Ok(
                                    (
                                        seq![
                                            match alias {
                                                Some(a) => a,
                                                None => numbered(i),
                                            },
                                        ] + names,
                                        seq![v] + vals,
                                    ),
                                ),
                            },
                        },
                    },
                },
            },
        }
    }
}

/// What the whole comes to when the items from here on come to `rest`.
pub open spec fn after_items(
    names: Seq<Seq<char>>,
    vals: Seq<ValueV>,
    rest: Result<(Seq<Seq<char>>, Seq<ValueV>), ErrorV>,
) -> Result<(Seq<Seq<char>>, Seq<ValueV>), ErrorV> {
    match rest {
        Ok((n, v)) => Ok((names + n, vals + v)),
        Err(e) => Err(e),
    }
}

#[verifier::spinoff_prover]
#[verifier::rlimit(40)]
pub fn aggregate_projection(
    env: &Env,
    items: &Vec<SelectItem>,
    schema: &QuerySchema,
    rows: &Vec<Vec<Value>>,
    params: &Vec<Value>,
) -> (r: Result<(Vec<String>, Vec<Value>), Error>)
    requires
        rows_fit(schema, rows@),
    ensures
        (match aggregate_items(
            env@,
            select_items_v(items@),
            schema@,
            rows_view(rows@),
            row_view(params@),
            0,
        ) {
            Ok((names, vals)) => r is Ok && strings_v((r->Ok_0).0@) == names && row_view(
                (r->Ok_0).1@,
            ) == vals,
            Err(e) => r is Err && r->Err_0@ == e,
        }),
{
    let mut names: Vec<String> = Vec::new();
    let mut vals: Vec<Value> = Vec::new();
    let n: usize = items.len();
    let ghost its = select_items_v(items@);
    let ghost rv = rows_view(rows@);
    let ghost pv = row_view(params@);
    let ghost sv = schema@;
    let ghost all = aggregate_items(env@, its, sv, rv, pv, 0);
    proof {
        if all is Ok {
            assert(strings_v(names@) + (all->Ok_0).0 =~= (all->Ok_0).0);
            assert(row_view(vals@) + (all->Ok_0).1 =~= (all->Ok_0).1);
        }
    }
    for i in 0..n
        invariant
            n == items@.len(),
            rows_fit(schema, rows@),
            its == select_items_v(items@),
            rv == rows_view(rows@),
            pv == row_view(params@),
            sv == schema@,
            all == aggregate_items(env@, its, sv, rv, pv, 0),
            all == after_items(
                strings_v(names@),
                row_view(vals@),
                aggregate_items(env@, its, sv, rv, pv, i as int),
            ),
    {
        assert(its[i as int] == items@[i as int]@);
        let (e, alias) = match &items[i] {
            SelectItem::Star => {
                return Err(sql_lit("'*' no se puede combinar con agregados"));
            },
            SelectItem::Expr { expr, alias } => (expr, alias),
        };
        if let Some(name) = col_outside_agg(e) {
            return Err(
                sql_err(
                    cat3("sin GROUP BY, la columna ", name, " debe ir dentro de un agregado"),
                ),
            );
        }
        match validate_columns(e, schema) {
            Ok(_) => {},
            Err(x) => {
                return Err(x);
            },
        }
        let here = env.branch(i);
        let folded = match fold_aggregates(&here.branch(0), e, schema, rows, params) {
            Ok(f) => f,
            Err(x) => {
                return Err(x);
            },
        };
        let v = match eval_const(&here.branch(1), &folded, params) {
            Ok(v) => v,
            Err(x) => {
                return Err(x);
            },
        };
        let ghost names0 = strings_v(names@);
        let ghost vals0 = row_view(vals@);
        let name = match alias {
            Some(a) => a.clone(),
            None => numbered_name(i),
        };
        let ghost nv = name@;
        let ghost vv = v@;
        names.push(name);
        vals.push(v);
        proof {
            assert(strings_v(names@) =~= names0.push(nv));
            assert(row_view(vals@) =~= vals0.push(vv));
            let rest = aggregate_items(env@, its, sv, rv, pv, i + 1);
            if rest is Ok {
                let (rn, rvals) = rest->Ok_0;
                assert(names0 + (seq![nv] + rn) =~= strings_v(names@) + rn);
                assert(vals0 + (seq![vv] + rvals) =~= row_view(vals@) + rvals);
            }
        }
    }
    assert(strings_v(names@) + Seq::<Seq<char>>::empty() =~= strings_v(names@));
    assert(row_view(vals@) + Seq::<ValueV>::empty() =~= row_view(vals@));
    Ok((names, vals))
}

} // verus!
