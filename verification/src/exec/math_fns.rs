//! Numeric scalar functions.
use vstd::prelude::*;

use crate::error::{gives, sql_err, sql_lit, Error, ErrorV};
#[allow(unused_imports)]
use crate::error::sql_error;
use crate::exec::functions::{arity_err, number_err, some_null, Func};
#[allow(unused_imports)]
use crate::exec::functions::{any_null, bad_arity, need_number};
use crate::exec::ops::{arith, num_bits, Env, EnvV};
#[allow(unused_imports)]
use crate::exec::ops::{arith_value, drawn, number_bits, real_of, settled};
use crate::reals::{magnitude_of, nan, Binary, RealOp, RealOpV, Unary, SIGN_BIT};
#[allow(unused_imports)]
use crate::reals::{is_nan, known_bits, magnitude, rank};
use crate::record::{Value, ValueV};
#[allow(unused_imports)]
use crate::record::{kind_name_of, row_view};
use crate::sql::ast::BinOp;
use crate::text::cat;

verus! {

/// Bits of the number pi.
pub const PI_BITS: u64 = 0x4009_21FB_5444_2D18;

/// A number as a real, or the complaint that it is none.
pub open spec fn number_arg(env: EnvV, name: Seq<char>, v: ValueV) -> Result<u64, ErrorV> {
    match number_bits(env, v) {
        Some(r) => r,
        None => Err(need_number(name, v)),
    }
}

fn number_of_arg(env: &Env, name: &str, v: &Value) -> (r: Result<u64, Error>)
    ensures
        gives(r, number_arg(env@, name@, v@)),
{
    match num_bits(env, v) {
        Some(r) => r,
        None => Err(number_err(name, v)),
    }
}

/// A real outcome as a value.
pub open spec fn real_result(env: EnvV, op: RealOpV) -> Result<ValueV, ErrorV> {
    match settled(known_bits(env.reals, op)) {
        Ok(b) => Ok(ValueV::Real(b)),
        Err(e) => Err(e),
    }
}

fn real_value(env: &Env, op: RealOp) -> (r: Result<Value, Error>)
    ensures
        gives(r, real_result(env@, op@)),
{
    match env.bits(op) {
        Ok(b) => Ok(Value::Real(b)),
        Err(e) => Err(e),
    }
}

/// A function of one real on a number.
pub open spec fn unary_call(env: EnvV, u: Unary, name: Seq<char>, a: Seq<ValueV>) -> Result<
    ValueV,
    ErrorV,
> {
    if a.len() != 1 {
        Err(bad_arity(name))
    } else if a[0] is Null {
        Ok(ValueV::Null)
    } else {
        match number_arg(env, name, a[0]) {
            Ok(x) => real_result(env, RealOpV::Unary(u, x)),
            Err(e) => Err(e),
        }
    }
}

fn unary_function(env: &Env, u: Unary, name: &str, a: &Vec<Value>) -> (r: Result<Value, Error>)
    ensures
        gives(r, unary_call(env@, u, name@, row_view(a@))),
{
    if a.len() != 1 {
        return Err(arity_err(name));
    }
    if matches!(a[0], Value::Null) {
        return Ok(Value::Null);
    }
    match number_of_arg(env, name, &a[0]) {
        Ok(x) => real_value(env, RealOp::Unary(u, x)),
        Err(e) => Err(e),
    }
}

/// A function of two reals on numbers.
pub open spec fn binary_call(env: EnvV, b: Binary, name: Seq<char>, a: Seq<ValueV>) -> Result<
    ValueV,
    ErrorV,
> {
    if a.len() != 2 {
        Err(bad_arity(name))
    } else if a[0] is Null || a[1] is Null {
        Ok(ValueV::Null)
    } else {
        match number_arg(env, name, a[0]) {
            Err(e) => Err(e),
            Ok(x) => match number_arg(env, name, a[1]) {
                Err(e) => Err(e),
                Ok(y) => real_result(env, RealOpV::Binary(b, x, y)),
            },
        }
    }
}

fn binary_function(env: &Env, b: Binary, name: &str, a: &Vec<Value>) -> (r: Result<Value, Error>)
    ensures
        gives(r, binary_call(env@, b, name@, row_view(a@))),
{
    if a.len() != 2 {
        return Err(arity_err(name));
    }
    if matches!(a[0], Value::Null) || matches!(a[1], Value::Null) {
        return Ok(Value::Null);
    }
    match number_of_arg(env, name, &a[0]) {
        Err(e) => Err(e),
        Ok(x) => match number_of_arg(env, name, &a[1]) {
            Err(e) => Err(e),
            Ok(y) => real_value(env, RealOp::Binary(b, x, y)),
        },
    }
}

pub open spec fn sign_of(b: u64) -> i64 {
    if rank(b) > 0 {
        1
    } else if rank(b) < 0 {
        (-1) as i64
    } else {
        0
    }
}

/// Functions that keep integers apart from reals.
pub open spec fn number_call(env: EnvV, f: Func, name: Seq<char>, a: Seq<ValueV>) -> Result<
    ValueV,
    ErrorV,
> {
    if a.len() != 1 {
        Err(bad_arity(name))
    } else {
        match a[0] {
            ValueV::Null => Ok(ValueV::Null),
            ValueV::Integer(n) => match f {
                Func::Abs => if n == i64::MIN {
                    Err(sql_error("desbordamiento de entero en abs()"@))
                } else {
                    Ok(
                        ValueV::Integer(
                            if n < 0 {
                                (-n) as i64
                            } else {
                                n
                            },
                        ),
                    )
                },
                Func::Ceil | Func::Floor => Ok(ValueV::Integer(n)),
                Func::Sqrt => if n < 0 {
                    Ok(ValueV::Null)
                } else {
                    match real_of(env, n) {
                        Ok(x) => real_result(env, RealOpV::Unary(Unary::Sqrt, x)),
                        Err(e) => Err(e),
                    }
                },
                _ => Ok(
                    ValueV::Integer(
                        if n > 0 {
                            1
                        } else if n < 0 {
                            (-1) as i64
                        } else {
                            0
                        },
                    ),
                ),
            },
            ValueV::Real(b) => match f {
                Func::Abs => Ok(ValueV::Real(magnitude(b) as u64)),
                Func::Ceil => real_result(env, RealOpV::Unary(Unary::Ceil, b)),
                Func::Floor => real_result(env, RealOpV::Unary(Unary::Floor, b)),
                Func::Sqrt => if !is_nan(b) && rank(b) < 0 {
                    Ok(ValueV::Null)
                } else {
                    real_result(env, RealOpV::Unary(Unary::Sqrt, b))
                },
                _ => if is_nan(b) {
                    Ok(ValueV::Null)
                } else {
                    Ok(ValueV::Integer(sign_of(b)))
                },
            },
            _ => Err(need_number(name, a[0])),
        }
    }
}

fn number_function(env: &Env, f: Func, name: &str, a: &Vec<Value>) -> (r: Result<Value, Error>)
    ensures
        gives(r, number_call(env@, f, name@, row_view(a@))),
{
    if a.len() != 1 {
        return Err(arity_err(name));
    }
    match &a[0] {
        Value::Null => Ok(Value::Null),
        Value::Integer(k) => {
            let n: i64 = *k;
            match f {
                Func::Abs => if n == i64::MIN {
                    Err(sql_lit("desbordamiento de entero en abs()"))
                } else if n < 0 {
                    Ok(Value::Integer(-n))
                } else {
                    Ok(Value::Integer(n))
                },
                Func::Ceil | Func::Floor => Ok(Value::Integer(n)),
                Func::Sqrt => if n < 0 {
                    Ok(Value::Null)
                } else {
                    match env.nearest(n) {
                        Ok(x) => real_value(env, RealOp::Unary(Unary::Sqrt, x)),
                        Err(e) => Err(e),
                    }
                },
                _ => if n > 0 {
                    Ok(Value::Integer(1))
                } else if n < 0 {
                    Ok(Value::Integer(-1))
                } else {
                    Ok(Value::Integer(0))
                },
            }
        },
        Value::Real(bits) => {
            let b: u64 = *bits;
            match f {
                Func::Abs => Ok(Value::Real(magnitude_of(b))),
                Func::Ceil => real_value(env, RealOp::Unary(Unary::Ceil, b)),
                Func::Floor => real_value(env, RealOp::Unary(Unary::Floor, b)),
                Func::Sqrt => if !nan(b) && b > SIGN_BIT {
                    Ok(Value::Null)
                } else {
                    real_value(env, RealOp::Unary(Unary::Sqrt, b))
                },
                _ => if nan(b) {
                    Ok(Value::Null)
                } else if b == 0 || b == SIGN_BIT {
                    Ok(Value::Integer(0))
                } else if b > SIGN_BIT {
                    Ok(Value::Integer(-1))
                } else {
                    Ok(Value::Integer(1))
                },
            }
        },
        v => Err(number_err(name, v)),
    }
}

/// A number of decimal places, kept between 0 and 15.
pub open spec fn places(d: i64) -> i64 {
    if d < 0 {
        0
    } else if d > 15 {
        15
    } else {
        d
    }
}

pub open spec fn round_call(env: EnvV, name: Seq<char>, a: Seq<ValueV>) -> Result<ValueV, ErrorV> {
    if a.len() != 1 && a.len() != 2 {
        Err(bad_arity(name))
    } else if any_null(a) {
        Ok(ValueV::Null)
    } else if a.len() == 2 && !(a[1] is Integer) {
        Err(sql_error("round(): el 2º argumento debe ser un entero, no "@ + kind_name_of(a[1])))
    } else {
        let d = if a.len() == 2 {
            a[1]->Integer_0
        } else {
            0
        };
        match a[0] {
            ValueV::Integer(n) => match real_of(env, n) {
                Ok(b) => Ok(ValueV::Real(b)),
                Err(e) => Err(e),
            },
            ValueV::Real(b) => real_result(env, RealOpV::Round(b, places(d))),
            _ => Err(need_number(name, a[0])),
        }
    }
}

fn round_function(env: &Env, name: &str, a: &Vec<Value>) -> (r: Result<Value, Error>)
    ensures
        gives(r, round_call(env@, name@, row_view(a@))),
{
    if a.len() != 1 && a.len() != 2 {
        return Err(arity_err(name));
    }
    if some_null(a) {
        return Ok(Value::Null);
    }
    proof {
        assert(row_view(a@)[0] == a@[0]@);
    }
    let d: i64 = if a.len() == 2 {
        match &a[1] {
            Value::Integer(n) => *n,
            v => {
                return Err(
                    sql_err(
                        cat("round(): el 2º argumento debe ser un entero, no ", v.kind_name()),
                    ),
                );
            },
        }
    } else {
        0
    };
    match &a[0] {
        Value::Integer(n) => match env.nearest(*n) {
            Ok(b) => Ok(Value::Real(b)),
            Err(e) => Err(e),
        },
        Value::Real(b) => {
            let p: i64 = if d < 0 {
                0
            } else if d > 15 {
                15
            } else {
                d
            };
            real_value(env, RealOp::Round(*b, p))
        },
        v => Err(number_err(name, v)),
    }
}

/// `log(x)` to base ten, `log(b, x)` to base `b`.
pub open spec fn log_call(env: EnvV, name: Seq<char>, a: Seq<ValueV>) -> Result<ValueV, ErrorV> {
    if a.len() == 1 {
        unary_call(env, Unary::Log10, name, a)
    } else {
        binary_call(env, Binary::Log, name, a)
    }
}

/// The numeric functions and `random`.
pub open spec fn math_call(env: EnvV, f: Func, name: Seq<char>, a: Seq<ValueV>) -> Result<
    ValueV,
    ErrorV,
> {
    match f {
        Func::Abs | Func::Ceil | Func::Floor | Func::Sqrt | Func::Sign => number_call(env, f, name, a),
        Func::Round => round_call(env, name, a),
        Func::Pow => binary_call(env, Binary::Pow, name, a),
        Func::Atan2 => binary_call(env, Binary::Atan2, name, a),
        Func::Log => log_call(env, name, a),
        Func::Math(u) => unary_call(env, u, name, a),
        Func::Mod => if a.len() != 2 {
            Err(bad_arity(name))
        } else {
            arith_value(env, BinOp::Mod, a[0], a[1])
        },
        Func::Random => if a.len() != 0 {
            Err(bad_arity(name))
        } else {
            match drawn(env) {
                Ok(n) => Ok(ValueV::Integer(n)),
                Err(e) => Err(e),
            }
        },
        Func::Pi => if a.len() != 0 {
            Err(bad_arity(name))
        } else {
            Ok(ValueV::Real(PI_BITS))
        },
        _ => if a.len() != 1 {
            Err(bad_arity(name))
        } else {
            match a[0] {
                ValueV::Null => Ok(ValueV::Null),
                ValueV::Integer(ms) => real_result(env, RealOpV::JulianDay(ms)),
                _ => Err(
                    sql_error("julianday() espera epoch ms (INTEGER), no "@ + kind_name_of(a[0])),
                ),
            }
        },
    }
}

pub fn math_function(env: &Env, f: Func, name: &str, a: &Vec<Value>) -> (r: Result<Value, Error>)
    ensures
        gives(r, math_call(env@, f, name@, row_view(a@))),
{
    match f {
        Func::Abs | Func::Ceil | Func::Floor | Func::Sqrt | Func::Sign => number_function(
            env,
            f,
            name,
            a,
        ),
        Func::Round => round_function(env, name, a),
        Func::Pow => binary_function(env, Binary::Pow, name, a),
        Func::Atan2 => binary_function(env, Binary::Atan2, name, a),
        Func::Log => if a.len() == 1 {
            unary_function(env, Unary::Log10, name, a)
        } else {
            binary_function(env, Binary::Log, name, a)
        },
        Func::Math(u) => unary_function(env, u, name, a),
        Func::Mod => if a.len() != 2 {
            Err(arity_err(name))
        } else {
            arith(env, BinOp::Mod, &a[0], &a[1])
        },
        Func::Random => if a.len() != 0 {
            Err(arity_err(name))
        } else {
            match env.draw() {
                Ok(n) => Ok(Value::Integer(n)),
                Err(e) => Err(e),
            }
        },
        Func::Pi => if a.len() != 0 {
            Err(arity_err(name))
        } else {
            Ok(Value::Real(PI_BITS))
        },
        _ => {
            if a.len() != 1 {
                return Err(arity_err(name));
            }
            match &a[0] {
                Value::Null => Ok(Value::Null),
                Value::Integer(ms) => real_value(env, RealOp::JulianDay(*ms)),
                v => Err(
                    sql_err(cat("julianday() espera epoch ms (INTEGER), no ", v.kind_name())),
                ),
            }
        },
    }
}

} // verus!
