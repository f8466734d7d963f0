//! Scalar functions.
use vstd::prelude::*;
use vstd::string::StringExecFns;
use vstd::utf8::encode_utf8;

use crate::error::{gives, sql_err, sql_lit, Error, ErrorV};
#[allow(unused_imports)]
use crate::error::sql_error;
use crate::exec::json_fns::json_function;
#[allow(unused_imports)]
use crate::exec::json_fns::json_call;
use crate::exec::math_fns::math_function;
#[allow(unused_imports)]
use crate::exec::math_fns::math_call;
use crate::exec::ops::{order_values, value_text, Env, EnvV};
#[allow(unused_imports)]
use crate::exec::ops::{settled, text_of, value_order};
use crate::exec::pattern::glob_match;
#[allow(unused_imports)]
use crate::exec::pattern::glob;
use crate::exec::printf::sql_printf;
#[allow(unused_imports)]
use crate::exec::printf::printed;
use crate::exec::strings::{find, pad_to, replace_all, reversed_text, substr, to_hex, to_lower, to_upper};
#[allow(unused_imports)]
use crate::exec::strings::{
    first_at, hex_text, pad_target, padded_to, replaced, substring, text_lower, text_upper,
};
use crate::reals::{Distance, Order, RealOp, RealOpV, Unary};
#[allow(unused_imports)]
use crate::reals::{known_bytes, known_distance, known_text};
use crate::record::{clone_row, Value, ValueV};
#[allow(unused_imports)]
use crate::record::{kind_name_of, row_view};
use crate::sql::datetime::strftime;
#[allow(unused_imports)]
use crate::sql::datetime::{formatted, instant_parts};
use crate::text::{
    cat, cat3, char_of_code, chars_of, i64_text, lower_ascii, str_eq, string_range, trim_bounds,
};
#[allow(unused_imports)]
use crate::text::{ascii_lower_all, int_text, is_scalar_value, trim_end, trim_start};

verus! {

/// The scalar functions.
#[derive(Clone, Copy, Debug, PartialEq, Eq, Structural)]
pub enum Func {
    Upper,
    Lower,
    Length,
    Trim,
    Ltrim,
    Rtrim,
    Abs,
    Round,
    Coalesce,
    Ifnull,
    Typeof,
    Substr,
    Nullif,
    Replace,
    Instr,
    Reverse,
    Hex,
    Ceil,
    Floor,
    Sqrt,
    Pow,
    Mod,
    Sign,
    Random,
    Pi,
    Math(Unary),
    Log,
    Atan2,
    Min,
    Max,
    Concat,
    ConcatWs,
    Lpad,
    Rpad,
    Unicode,
    Char,
    Quote,
    Glob,
    Printf,
    Julianday,
    Unixepoch,
    Json,
    JsonValid,
    JsonType,
    JsonExtract,
    JsonArrayLength,
    JsonObject,
    JsonArray,
    JsonQuote,
    Now,
    Date,
    Time,
    Datetime,
    Strftime,
    Vector,
    VectorI8,
    Distance(Distance),
}

/// The function that a lower-case name stands for.
pub open spec fn func_named(s: Seq<char>) -> Option<Func> {
    if s == "upper"@ {
        Some(Func::Upper)
    } else if s == "lower"@ {
        Some(Func::Lower)
    } else if s == "length"@ {
        Some(Func::Length)
    } else if s == "char_length"@ {
        Some(Func::Length)
    } else if s == "trim"@ {
        Some(Func::Trim)
    } else if s == "ltrim"@ {
        Some(Func::Ltrim)
    } else if s == "rtrim"@ {
        Some(Func::Rtrim)
    } else if s == "abs"@ {
        Some(Func::Abs)
    } else if s == "round"@ {
        Some(Func::Round)
    } else if s == "coalesce"@ {
        Some(Func::Coalesce)
    } else if s == "ifnull"@ {
        Some(Func::Ifnull)
    } else if s == "typeof"@ {
        Some(Func::Typeof)
    } else if s == "substr"@ {
        Some(Func::Substr)
    } else if s == "substring"@ {
        Some(Func::Substr)
    } else if s == "nullif"@ {
        Some(Func::Nullif)
    } else if s == "replace"@ {
        Some(Func::Replace)
    } else if s == "instr"@ {
        Some(Func::Instr)
    } else if s == "reverse"@ {
        Some(Func::Reverse)
    } else if s == "hex"@ {
        Some(Func::Hex)
    } else if s == "ceil"@ {
        Some(Func::Ceil)
    } else if s == "ceiling"@ {
        Some(Func::Ceil)
    } else if s == "floor"@ {
        Some(Func::Floor)
    } else if s == "sqrt"@ {
        Some(Func::Sqrt)
    } else if s == "pow"@ {
        Some(Func::Pow)
    } else if s == "power"@ {
        Some(Func::Pow)
    } else if s == "mod"@ {
        Some(Func::Mod)
    } else if s == "sign"@ {
        Some(Func::Sign)
    } else if s == "random"@ {
        Some(Func::Random)
    } else if s == "pi"@ {
        Some(Func::Pi)
    } else if s == "exp"@ {
        Some(Func::Math(Unary::Exp))
    } else if s == "ln"@ {
        Some(Func::Math(Unary::Ln))
    } else if s == "log10"@ {
        Some(Func::Math(Unary::Log10))
    } else if s == "log2"@ {
        Some(Func::Math(Unary::Log2))
    } else if s == "sin"@ {
        Some(Func::Math(Unary::Sin))
    } else if s == "cos"@ {
        Some(Func::Math(Unary::Cos))
    } else if s == "tan"@ {
        Some(Func::Math(Unary::Tan))
    } else if s == "asin"@ {
        Some(Func::Math(Unary::Asin))
    } else if s == "acos"@ {
        Some(Func::Math(Unary::Acos))
    } else if s == "atan"@ {
        Some(Func::Math(Unary::Atan))
    } else if s == "radians"@ {
        Some(Func::Math(Unary::Radians))
    } else if s == "degrees"@ {
        Some(Func::Math(Unary::Degrees))
    } else if s == "trunc"@ {
        Some(Func::Math(Unary::Trunc))
    } else if s == "log"@ {
        Some(Func::Log)
    } else if s == "atan2"@ {
        Some(Func::Atan2)
    } else if s == "min"@ {
        Some(Func::Min)
    } else if s == "max"@ {
        Some(Func::Max)
    } else if s == "concat"@ {
        Some(Func::Concat)
    } else if s == "concat_ws"@ {
        Some(Func::ConcatWs)
    } else if s == "lpad"@ {
        Some(Func::Lpad)
    } else if s == "rpad"@ {
        Some(Func::Rpad)
    } else if s == "unicode"@ {
        Some(Func::Unicode)
    } else if s == "char"@ {
        Some(Func::Char)
    } else if s == "quote"@ {
        Some(Func::Quote)
    } else if s == "glob"@ {
        Some(Func::Glob)
    } else if s == "printf"@ {
        Some(Func::Printf)
    } else if s == "format"@ {
        Some(Func::Printf)
    } else if s == "julianday"@ {
        Some(Func::Julianday)
    } else if s == "unixepoch"@ {
        Some(Func::Unixepoch)
    } else if s == "json"@ {
        Some(Func::Json)
    } else if s == "json_valid"@ {
        Some(Func::JsonValid)
    } else if s == "json_type"@ {
        Some(Func::JsonType)
    } else if s == "json_extract"@ {
        Some(Func::JsonExtract)
    } else if s == "json_array_length"@ {
        Some(Func::JsonArrayLength)
    } else if s == "json_object"@ {
        Some(Func::JsonObject)
    } else if s == "json_array"@ {
        Some(Func::JsonArray)
    } else if s == "json_quote"@ {
        Some(Func::JsonQuote)
    } else if s == "now"@ {
        Some(Func::Now)
    } else if s == "date"@ {
        Some(Func::Date)
    } else if s == "time"@ {
        Some(Func::Time)
    } else if s == "datetime"@ {
        Some(Func::Datetime)
    } else if s == "strftime"@ {
        Some(Func::Strftime)
    } else if s == "vector"@ {
        Some(Func::Vector)
    } else if s == "vector_i8"@ {
        Some(Func::VectorI8)
    } else if s == "cosine_distance"@ {
        Some(Func::Distance(Distance::Cosine))
    } else if s == "l2_distance"@ {
        Some(Func::Distance(Distance::L2))
    } else if s == "dot"@ {
        Some(Func::Distance(Distance::Dot))
    } else {
        None
    }
}

fn func_of(s: &str) -> (r: Option<Func>)
    ensures
        r == func_named(s@),
{
    if str_eq(s, "upper") {
        Some(Func::Upper)
    } else if str_eq(s, "lower") {
        Some(Func::Lower)
    } else if str_eq(s, "length") {
        Some(Func::Length)
    } else if str_eq(s, "char_length") {
        Some(Func::Length)
    } else if str_eq(s, "trim") {
        Some(Func::Trim)
    } else if str_eq(s, "ltrim") {
        Some(Func::Ltrim)
    } else if str_eq(s, "rtrim") {
        Some(Func::Rtrim)
    } else if str_eq(s, "abs") {
        Some(Func::Abs)
    } else if str_eq(s, "round") {
        Some(Func::Round)
    } else if str_eq(s, "coalesce") {
        Some(Func::Coalesce)
    } else if str_eq(s, "ifnull") {
        Some(Func::Ifnull)
    } else if str_eq(s, "typeof") {
        Some(Func::Typeof)
    } else if str_eq(s, "substr") {
        Some(Func::Substr)
    } else if str_eq(s, "substring") {
        Some(Func::Substr)
    } else if str_eq(s, "nullif") {
        Some(Func::Nullif)
    } else if str_eq(s, "replace") {
        Some(Func::Replace)
    } else if str_eq(s, "instr") {
        Some(Func::Instr)
    } else if str_eq(s, "reverse") {
        Some(Func::Reverse)
    } else if str_eq(s, "hex") {
        Some(Func::Hex)
    } else if str_eq(s, "ceil") {
        Some(Func::Ceil)
    } else if str_eq(s, "ceiling") {
        Some(Func::Ceil)
    } else if str_eq(s, "floor") {
        Some(Func::Floor)
    } else if str_eq(s, "sqrt") {
        Some(Func::Sqrt)
    } else if str_eq(s, "pow") {
        Some(Func::Pow)
    } else if str_eq(s, "power") {
        Some(Func::Pow)
    } else if str_eq(s, "mod") {
        Some(Func::Mod)
    } else if str_eq(s, "sign") {
        Some(Func::Sign)
    } else if str_eq(s, "random") {
        Some(Func::Random)
    } else if str_eq(s, "pi") {
        Some(Func::Pi)
    } else if str_eq(s, "exp") {
        Some(Func::Math(Unary::Exp))
    } else if str_eq(s, "ln") {
        Some(Func::Math(Unary::Ln))
    } else if str_eq(s, "log10") {
        Some(Func::Math(Unary::Log10))
    } else if str_eq(s, "log2") {
        Some(Func::Math(Unary::Log2))
    } else if str_eq(s, "sin") {
        Some(Func::Math(Unary::Sin))
    } else if str_eq(s, "cos") {
        Some(Func::Math(Unary::Cos))
    } else if str_eq(s, "tan") {
        Some(Func::Math(Unary::Tan))
    } else if str_eq(s, "asin") {
        Some(Func::Math(Unary::Asin))
    } else if str_eq(s, "acos") {
        Some(Func::Math(Unary::Acos))
    } else if str_eq(s, "atan") {
        Some(Func::Math(Unary::Atan))
    } else if str_eq(s, "radians") {
        Some(Func::Math(Unary::Radians))
    } else if str_eq(s, "degrees") {
        Some(Func::Math(Unary::Degrees))
    } else if str_eq(s, "trunc") {
        Some(Func::Math(Unary::Trunc))
    } else if str_eq(s, "log") {
        Some(Func::Log)
    } else if str_eq(s, "atan2") {
        Some(Func::Atan2)
    } else if str_eq(s, "min") {
        Some(Func::Min)
    } else if str_eq(s, "max") {
        Some(Func::Max)
    } else if str_eq(s, "concat") {
        Some(Func::Concat)
    } else if str_eq(s, "concat_ws") {
        Some(Func::ConcatWs)
    } else if str_eq(s, "lpad") {
        Some(Func::Lpad)
    } else if str_eq(s, "rpad") {
        Some(Func::Rpad)
    } else if str_eq(s, "unicode") {
        Some(Func::Unicode)
    } else if str_eq(s, "char") {
        Some(Func::Char)
    } else if str_eq(s, "quote") {
        Some(Func::Quote)
    } else if str_eq(s, "glob") {
        Some(Func::Glob)
    } else if str_eq(s, "printf") {
        Some(Func::Printf)
    } else if str_eq(s, "format") {
        Some(Func::Printf)
    } else if str_eq(s, "julianday") {
        Some(Func::Julianday)
    } else if str_eq(s, "unixepoch") {
        Some(Func::Unixepoch)
    } else if str_eq(s, "json") {
        Some(Func::Json)
    } else if str_eq(s, "json_valid") {
        Some(Func::JsonValid)
    } else if str_eq(s, "json_type") {
        Some(Func::JsonType)
    } else if str_eq(s, "json_extract") {
        Some(Func::JsonExtract)
    } else if str_eq(s, "json_array_length") {
        Some(Func::JsonArrayLength)
    } else if str_eq(s, "json_object") {
        Some(Func::JsonObject)
    } else if str_eq(s, "json_array") {
        Some(Func::JsonArray)
    } else if str_eq(s, "json_quote") {
        Some(Func::JsonQuote)
    } else if str_eq(s, "now") {
        Some(Func::Now)
    } else if str_eq(s, "date") {
        Some(Func::Date)
    } else if str_eq(s, "time") {
        Some(Func::Time)
    } else if str_eq(s, "datetime") {
        Some(Func::Datetime)
    } else if str_eq(s, "strftime") {
        Some(Func::Strftime)
    } else if str_eq(s, "vector") {
        Some(Func::Vector)
    } else if str_eq(s, "vector_i8") {
        Some(Func::VectorI8)
    } else if str_eq(s, "cosine_distance") {
        Some(Func::Distance(Distance::Cosine))
    } else if str_eq(s, "l2_distance") {
        Some(Func::Distance(Distance::L2))
    } else if str_eq(s, "dot") {
        Some(Func::Distance(Distance::Dot))
    } else {
        None
    }
}


// --- arguments ---

pub open spec fn bad_arity(name: Seq<char>) -> ErrorV {
    sql_error("número de argumentos inválido para "@ + name + "()"@)
}

pub open spec fn need_number(name: Seq<char>, v: ValueV) -> ErrorV {
    sql_error(name + "() requiere un número, no "@ + kind_name_of(v))
}

pub open spec fn need_text(name: Seq<char>, v: ValueV) -> ErrorV {
    sql_error(name + "() requiere TEXT, no "@ + kind_name_of(v))
}

pub fn arity_err(name: &str) -> (r: Error)
    ensures
        r@ == bad_arity(name@),
{
    sql_err(cat3("número de argumentos inválido para ", name, "()"))
}

pub fn number_err(name: &str, v: &Value) -> (r: Error)
    ensures
        r@ == need_number(name@, v@),
{
    sql_err(cat3(name, "() requiere un número, no ", v.kind_name()))
}

pub fn text_err(name: &str, v: &Value) -> (r: Error)
    ensures
        r@ == need_text(name@, v@),
{
    sql_err(cat3(name, "() requiere TEXT, no ", v.kind_name()))
}

/// The text of a value, or the complaint that there is none.
pub open spec fn text_arg(env: EnvV, name: Seq<char>, v: ValueV) -> Result<Seq<char>, ErrorV> {
    match text_of(env, v) {
        Ok(Some(s)) => Ok(s),
        Ok(None) => Err(need_text(name, v)),
        Err(e) => Err(e),
    }
}

pub fn text_of_arg(env: &Env, name: &str, v: &Value) -> (r: Result<String, Error>)
    ensures
        gives(r, text_arg(env@, name@, v@)),
{
    match value_text(env, v) {
        Ok(Some(s)) => Ok(s),
        Ok(None) => Err(text_err(name, v)),
        Err(e) => Err(e),
    }
}

// --- functions of one text ---

pub open spec fn text_call(f: Func, name: Seq<char>, a: Seq<ValueV>) -> Result<ValueV, ErrorV> {
    if a.len() != 1 {
        Err(bad_arity(name))
    } else {
        match a[0] {
            ValueV::Null => Ok(ValueV::Null),
            ValueV::Text(s) => match f {
                Func::Upper => Ok(ValueV::Text(text_upper(s))),
                Func::Lower => Ok(ValueV::Text(text_lower(s))),
                Func::Length => Ok(ValueV::Integer(s.len() as i64)),
                Func::Trim => Ok(ValueV::Text(trim_end(trim_start(s)))),
                Func::Ltrim => Ok(ValueV::Text(trim_start(s))),
                Func::Rtrim => Ok(ValueV::Text(trim_end(s))),
                Func::Reverse => Ok(ValueV::Text(s.reverse())),
                Func::Hex => Ok(ValueV::Text(hex_text(encode_utf8(s)))),
                _ => if s.len() == 0 {
                    Ok(ValueV::Null)
                } else {
                    Ok(ValueV::Integer((s[0] as u32) as i64))
                },
            },
            ValueV::Blob(b) => match f {
                Func::Length => Ok(ValueV::Integer(b.len() as i64)),
                Func::Hex => Ok(ValueV::Text(hex_text(b))),
                _ => Err(need_text(name, a[0])),
            },
            _ => match f {
                Func::Length => Err(
                    sql_error("length() requiere TEXT o BLOB, no "@ + kind_name_of(a[0])),
                ),
                Func::Hex => Err(sql_error("hex() requiere TEXT o BLOB, no "@ + kind_name_of(a[0]))),
                _ => Err(need_text(name, a[0])),
            },
        }
    }
}

fn trimmed_text(s: &str, start: bool, end: bool) -> (r: String)
    requires
        start || end,
    ensures
        r@ == (if start && end {
            trim_end(trim_start(s@))
        } else if start {
            trim_start(s@)
        } else {
            trim_end(s@)
        }),
{
    let cs = chars_of(s);
    let (lo, hi): (usize, usize) = trim_bounds(cs.as_slice(), start, end);
    string_range(cs.as_slice(), lo, hi)
}

fn text_function(f: Func, name: &str, a: &Vec<Value>) -> (r: Result<Value, Error>)
    ensures
        gives(r, text_call(f, name@, row_view(a@))),
{
    if a.len() != 1 {
        return Err(arity_err(name));
    }
    let v = &a[0];
    match v {
        Value::Null => Ok(Value::Null),
        Value::Text(s) => match f {
            Func::Upper => Ok(Value::Text(to_upper(s.as_str()))),
            Func::Lower => Ok(Value::Text(to_lower(s.as_str()))),
            Func::Length => {
                let cs = chars_of(s.as_str());
                Ok(Value::Integer(cs.len() as i64))
            },
            Func::Trim => Ok(Value::Text(trimmed_text(s.as_str(), true, true))),
            Func::Ltrim => Ok(Value::Text(trimmed_text(s.as_str(), true, false))),
            Func::Rtrim => Ok(Value::Text(trimmed_text(s.as_str(), false, true))),
            Func::Reverse => Ok(Value::Text(reversed_text(s.as_str()))),
            Func::Hex => Ok(Value::Text(to_hex(s.as_str().as_bytes()))),
            _ => {
                let cs = chars_of(s.as_str());
                if cs.len() == 0 {
                    Ok(Value::Null)
                } else {
                    Ok(Value::Integer(cs[0] as u32 as i64))
                }
            },
        },
        Value::Blob(b) => match f {
            Func::Length => Ok(Value::Integer(b.len() as i64)),
            Func::Hex => Ok(Value::Text(to_hex(b.as_slice()))),
            _ => Err(text_err(name, v)),
        },
        _ => match f {
            Func::Length => Err(sql_err(cat("length() requiere TEXT o BLOB, no ", v.kind_name()))),
            Func::Hex => Err(sql_err(cat("hex() requiere TEXT o BLOB, no ", v.kind_name()))),
            _ => Err(text_err(name, v)),
        },
    }
}

// --- choosing among values ---

/// The first value that is not NULL.
pub open spec fn first_known(a: Seq<ValueV>) -> ValueV
    decreases a.len(),
{
    if a.len() == 0 {
        ValueV::Null
    } else if a[0] is Null {
        first_known(a.drop_first())
    } else {
        a[0]
    }
}

fn first_known_of(a: &Vec<Value>) -> (r: Value)
    ensures
        r@ == first_known(row_view(a@)),
{
    let ghost av = row_view(a@);
    let n: usize = a.len();
    assert(av.skip(0) =~= av);
    for i in 0..n
        invariant
            n == a@.len(),
            av == row_view(a@),
            first_known(av) == first_known(av.skip(i as int)),
    {
        assert(av.skip(i as int).drop_first() =~= av.skip(i + 1));
        if !matches!(a[i], Value::Null) {
            return a[i].clone();
        }
    }
    Value::Null
}

/// The greatest (or least) of `best` and the values from `i` on.
pub open spec fn extreme(env: EnvV, a: Seq<ValueV>, i: int, best: ValueV, max: bool) -> Result<
    ValueV,
    ErrorV,
>
    decreases a.len() - i,
{
    if i < 0 || i >= a.len() {
        Ok(best)
    } else {
        match value_order(env, a[i], best) {
            Err(e) => Err(e),
            Ok(o) => extreme(
                env,
                a,
                i + 1,
                if o == Some(
                    if max {
                        Order::Greater
                    } else {
                        Order::Less
                    },
                ) {
                    a[i]
                } else {
                    best
                },
                max,
            ),
        }
    }
}

pub open spec fn any_null(a: Seq<ValueV>) -> bool {
    exists|i: int| 0 <= i < a.len() && #[trigger] a[i] is Null
}

pub fn some_null(a: &Vec<Value>) -> (r: bool)
    ensures
        r == any_null(row_view(a@)),
{
    let n: usize = a.len();
    for i in 0..n
        invariant
            n == a@.len(),
            forall|k: int| 0 <= k < i ==> !(#[trigger] row_view(a@)[k] is Null),
    {
        assert(row_view(a@)[i as int] == a@[i as int]@);
        if matches!(a[i], Value::Null) {
            return true;
        }
    }
    false
}

pub open spec fn min_max_call(env: EnvV, f: Func, name: Seq<char>, a: Seq<ValueV>) -> Result<
    ValueV,
    ErrorV,
> {
    if a.len() < 2 {
        Err(bad_arity(name))
    } else if any_null(a) {
        Ok(ValueV::Null)
    } else {
        extreme(env, a, 1, a[0], f == Func::Max)
    }
}

/// The greatest (or least) of some values, the first of those that are equal.
pub fn extreme_of(env: &Env, a: &Vec<Value>, max: bool) -> (r: Result<Value, Error>)
    requires
        a@.len() >= 1,
    ensures
        gives(r, extreme(env@, row_view(a@), 1, row_view(a@)[0], max)),
{
    let ghost av = row_view(a@);
    let mut best: &Value = &a[0];
    let mut i: usize = 1;
    while i < a.len()
        invariant
            1 <= i <= a@.len(),
            av == row_view(a@),
            extreme(env@, av, 1, av[0], max) == extreme(env@, av, i as int, best@, max),
        decreases a@.len() - i,
    {
        match order_values(env, &a[i], best) {
            Err(e) => {
                return Err(e);
            },
            Ok(Some(Order::Greater)) => {
                if max {
                    best = &a[i];
                }
            },
            Ok(Some(Order::Less)) => {
                if !max {
                    best = &a[i];
                }
            },
            Ok(_) => {},
        }
        i = i + 1;
    }
    Ok(best.clone())
}

fn min_max_function(env: &Env, f: Func, name: &str, a: &Vec<Value>) -> (r: Result<Value, Error>)
    ensures
        gives(r, min_max_call(env@, f, name@, row_view(a@))),
{
    if a.len() < 2 {
        return Err(arity_err(name));
    }
    if some_null(a) {
        return Ok(Value::Null);
    }
    extreme_of(env, a, f == Func::Max)
}

pub open spec fn choice_call(env: EnvV, f: Func, name: Seq<char>, a: Seq<ValueV>) -> Result<
    ValueV,
    ErrorV,
> {
    match f {
        Func::Coalesce => if a.len() == 0 {
            Err(bad_arity(name))
        } else {
            Ok(first_known(a))
        },
        Func::Ifnull => if a.len() != 2 {
            Err(bad_arity(name))
        } else if a[0] is Null {
            Ok(a[1])
        } else {
            Ok(a[0])
        },
        Func::Nullif => if a.len() != 2 {
            Err(bad_arity(name))
        } else {
            match value_order(env, a[0], a[1]) {
                Err(e) => Err(e),
                Ok(Some(Order::Equal)) => Ok(ValueV::Null),
                Ok(_) => Ok(a[0]),
            }
        },
        Func::Typeof => if a.len() != 1 {
            Err(bad_arity(name))
        } else {
            Ok(ValueV::Text(kind_name_of(a[0])))
        },
        _ => min_max_call(env, f, name, a),
    }
}

fn choice_function(env: &Env, f: Func, name: &str, a: &Vec<Value>) -> (r: Result<Value, Error>)
    ensures
        gives(r, choice_call(env@, f, name@, row_view(a@))),
{
    match f {
        Func::Coalesce => if a.len() == 0 {
            Err(arity_err(name))
        } else {
            Ok(first_known_of(a))
        },
        Func::Ifnull => if a.len() != 2 {
            Err(arity_err(name))
        } else if matches!(a[0], Value::Null) {
            Ok(a[1].clone())
        } else {
            Ok(a[0].clone())
        },
        Func::Nullif => if a.len() != 2 {
            Err(arity_err(name))
        } else {
            match order_values(env, &a[0], &a[1]) {
                Err(e) => Err(e),
                Ok(Some(Order::Equal)) => Ok(Value::Null),
                Ok(_) => Ok(a[0].clone()),
            }
        },
        Func::Typeof => if a.len() != 1 {
            Err(arity_err(name))
        } else {
            Ok(Value::Text(a[0].kind_name().to_owned()))
        },
        _ => min_max_function(env, f, name, a),
    }
}

// --- functions of several texts ---

pub open spec fn substr_call(a: Seq<ValueV>) -> Result<ValueV, ErrorV> {
    if a.len() > 0 && a[0] is Null || 2 <= a.len() <= 3 && any_null(a) {
        Ok(ValueV::Null)
    } else if a.len() == 2 && a[0] is Text && a[1] is Integer {
        Ok(ValueV::Text(substring(a[0]->Text_0, a[1]->Integer_0, None)))
    } else if a.len() == 3 && a[0] is Text && a[1] is Integer && a[2] is Integer {
        Ok(ValueV::Text(substring(a[0]->Text_0, a[1]->Integer_0, Some(a[2]->Integer_0))))
    } else {
        Err(sql_error("substr(texto, inicio [, largo]) con enteros"@))
    }
}

fn substr_function(a: &Vec<Value>) -> (r: Result<Value, Error>)
    ensures
        gives(r, substr_call(row_view(a@))),
{
    if a.len() > 0 && matches!(a[0], Value::Null) {
        return Ok(Value::Null);
    }
    if 2 <= a.len() && a.len() <= 3 && some_null(a) {
        return Ok(Value::Null);
    }
    if a.len() == 2 {
        match (&a[0], &a[1]) {
            (Value::Text(s), Value::Integer(n)) => {
                return Ok(Value::Text(substr(s.as_str(), *n, None)));
            },
            _ => {},
        }
    } else if a.len() == 3 {
        match (&a[0], &a[1], &a[2]) {
            (Value::Text(s), Value::Integer(n), Value::Integer(l)) => {
                return Ok(Value::Text(substr(s.as_str(), *n, Some(*l))));
            },
            _ => {},
        }
    }
    Err(sql_lit("substr(texto, inicio [, largo]) con enteros"))
}

pub open spec fn replace_call(name: Seq<char>, a: Seq<ValueV>) -> Result<ValueV, ErrorV> {
    if a.len() != 3 {
        Err(bad_arity(name))
    } else if a[0] is Null || a[1] is Null || a[2] is Null {
        Ok(ValueV::Null)
    } else {
        match (a[0], a[1], a[2]) {
            (ValueV::Text(s), ValueV::Text(from), ValueV::Text(to)) => Ok(
                ValueV::Text(
                    if from.len() == 0 {
                        s
                    } else {
                        replaced(s, from, to, 0)
                    },
                ),
            ),
            _ => Err(sql_error("replace(texto, de, a) requiere TEXT"@)),
        }
    }
}

fn replace_function(name: &str, a: &Vec<Value>) -> (r: Result<Value, Error>)
    ensures
        gives(r, replace_call(name@, row_view(a@))),
{
    if a.len() != 3 {
        return Err(arity_err(name));
    }
    if matches!(a[0], Value::Null) || matches!(a[1], Value::Null) || matches!(a[2], Value::Null) {
        return Ok(Value::Null);
    }
    match (&a[0], &a[1], &a[2]) {
        (Value::Text(s), Value::Text(from), Value::Text(to)) => {
            if from.as_str().is_empty() {
                Ok(Value::Text(s.clone()))
            } else {
                Ok(Value::Text(replace_all(s.as_str(), from.as_str(), to.as_str())))
            }
        },
        _ => Err(sql_lit("replace(texto, de, a) requiere TEXT")),
    }
}

pub open spec fn pair_call(f: Func, name: Seq<char>, a: Seq<ValueV>) -> Result<ValueV, ErrorV> {
    if a.len() != 2 {
        Err(bad_arity(name))
    } else if a[0] is Null || a[1] is Null {
        Ok(ValueV::Null)
    } else {
        match f {
            Func::Instr => match (a[0], a[1]) {
                (ValueV::Text(hay), ValueV::Text(needle)) => Ok(
                    ValueV::Integer(
                        if needle.len() == 0 {
                            1
                        } else {
                            match first_at(hay, needle, 0) {
                                Some(i) => (i + 1) as i64,
                                None => 0,
                            }
                        },
                    ),
                ),
                _ => Err(sql_error("instr(texto, sub) requiere TEXT"@)),
            },
            Func::Glob => match (a[0], a[1]) {
                (ValueV::Text(p), ValueV::Text(s)) => Ok(ValueV::Bool(glob(p, s))),
                _ => Err(sql_error("glob(patrón TEXT, texto TEXT)"@)),
            },
            _ => match (a[0], a[1]) {
                (ValueV::Text(f), ValueV::Integer(ms)) => Ok(
                    ValueV::Text(formatted(f, 0, instant_parts(ms))),
                ),
                _ => Err(sql_error("strftime(formato TEXT, epoch_ms INTEGER)"@)),
            },
        }
    }
}

fn pair_function(f: Func, name: &str, a: &Vec<Value>) -> (r: Result<Value, Error>)
    ensures
        gives(r, pair_call(f, name@, row_view(a@))),
{
    if a.len() != 2 {
        return Err(arity_err(name));
    }
    if matches!(a[0], Value::Null) || matches!(a[1], Value::Null) {
        return Ok(Value::Null);
    }
    match f {
        Func::Instr => match (&a[0], &a[1]) {
            (Value::Text(hay), Value::Text(needle)) => {
                if needle.as_str().is_empty() {
                    return Ok(Value::Integer(1));
                }
                let h = chars_of(hay.as_str());
                let n = chars_of(needle.as_str());
                assert(h.len() == h@.len());
                match find(h.as_slice(), n.as_slice()) {
                    Some(i) => Ok(Value::Integer((i + 1) as i64)),
                    None => Ok(Value::Integer(0)),
                }
            },
            _ => Err(sql_lit("instr(texto, sub) requiere TEXT")),
        },
        Func::Glob => match (&a[0], &a[1]) {
            (Value::Text(p), Value::Text(s)) => {
                let pv = chars_of(p.as_str());
                let sv = chars_of(s.as_str());
                Ok(Value::Bool(glob_match(pv.as_slice(), sv.as_slice())))
            },
            _ => Err(sql_lit("glob(patrón TEXT, texto TEXT)")),
        },
        _ => match (&a[0], &a[1]) {
            (Value::Text(f), Value::Integer(ms)) => Ok(Value::Text(strftime(f.as_str(), *ms))),
            _ => Err(sql_lit("strftime(formato TEXT, epoch_ms INTEGER)")),
        },
    }
}

// --- joining texts ---

/// The texts of the values from `i` on that are not NULL, with a separator between
/// them.
pub open spec fn joined(env: EnvV, name: Seq<char>, a: Seq<ValueV>, i: int, sep: Seq<char>) -> Result<
    Option<Seq<char>>,
    ErrorV,
>
    decreases a.len() - i,
{
    if i < 0 || i >= a.len() {
        Ok(None)
    } else if a[i] is Null {
        joined(env, name, a, i + 1, sep)
    } else {
        match text_arg(env, name, a[i]) {
            Err(e) => Err(e),
            Ok(s) => match joined(env, name, a, i + 1, sep) {
                Err(e) => Err(e),
                Ok(None) => Ok(Some(s)),
                Ok(Some(rest)) => Ok(Some(s + sep + rest)),
            },
        }
    }
}

pub open spec fn joined_text(r: Result<Option<Seq<char>>, ErrorV>) -> Result<ValueV, ErrorV> {
    match r {
        Ok(Some(s)) => Ok(ValueV::Text(s)),
        Ok(None) => Ok(ValueV::Text(Seq::empty())),
        Err(e) => Err(e),
    }
}

fn join(env: &Env, name: &str, a: &Vec<Value>, i: usize, sep: &str) -> (r: Result<
    Option<String>,
    Error,
>)
    requires
        i <= a@.len(),
    ensures
        (match joined(env@, name@, row_view(a@), i as int, sep@) {
            Ok(None) => r is Ok && r->Ok_0 is None,
            Ok(Some(s)) => r is Ok && r->Ok_0 is Some && r->Ok_0->0@ == s,
            Err(e) => r is Err && r->Err_0@ == e,
        }),
    decreases a@.len() - i,
{
    if i >= a.len() {
        return Ok(None);
    }
    assert(row_view(a@)[i as int] == a@[i as int]@);
    if matches!(a[i], Value::Null) {
        return join(env, name, a, i + 1, sep);
    }
    let mut s = match text_of_arg(env, name, &a[i]) {
        Err(e) => {
            return Err(e);
        },
        Ok(s) => s,
    };
    match join(env, name, a, i + 1, sep) {
        Err(e) => Err(e),
        Ok(None) => Ok(Some(s)),
        Ok(Some(rest)) => {
            s.append(sep);
            s.append(rest.as_str());
            Ok(Some(s))
        },
    }
}

fn as_text(r: Result<Option<String>, Error>) -> (t: Result<Value, Error>)
    ensures
        (match r {
            Ok(Some(s)) => t is Ok && t->Ok_0@ == ValueV::Text(s@),
            Ok(None) => t is Ok && t->Ok_0@ == ValueV::Text(Seq::empty()),
            Err(e) => t is Err && t->Err_0@ == e@,
        }),
{
    match r {
        Ok(Some(s)) => Ok(Value::Text(s)),
        Ok(None) => Ok(Value::Text(String::new())),
        Err(e) => Err(e),
    }
}

pub open spec fn pad_call(env: EnvV, f: Func, name: Seq<char>, a: Seq<ValueV>) -> Result<
    ValueV,
    ErrorV,
> {
    if a.len() > 0 && a[0] is Null || 2 <= a.len() <= 3 && any_null(a) {
        Ok(ValueV::Null)
    } else if a.len() < 2 {
        Err(bad_arity(name))
    } else if a.len() > 3 || !(a[1] is Integer) {
        Err(need_number(name, a[1]))
    } else {
        let pad = if a.len() == 2 {
            Ok(" "@)
        } else {
            text_arg(env, name, a[2])
        };
        match pad {
            Err(e) => Err(e),
            Ok(p) => match text_arg(env, name, a[0]) {
                Err(e) => Err(e),
                Ok(s) => Ok(
                    ValueV::Text(
                        padded_to(s, pad_target(a[1]->Integer_0), p, f == Func::Lpad),
                    ),
                ),
            },
        }
    }
}

fn pad_function(env: &Env, f: Func, name: &str, a: &Vec<Value>) -> (r: Result<Value, Error>)
    ensures
        gives(r, pad_call(env@, f, name@, row_view(a@))),
{
    if a.len() > 0 && matches!(a[0], Value::Null) {
        return Ok(Value::Null);
    }
    if a.len() < 2 {
        return Err(arity_err(name));
    }
    if a.len() <= 3 && some_null(a) {
        return Ok(Value::Null);
    }
    let len: i64 = match &a[1] {
        Value::Integer(n) => *n,
        v => {
            return Err(number_err(name, v));
        },
    };
    if a.len() > 3 {
        return Err(number_err(name, &a[1]));
    }
    let pad = if a.len() == 2 {
        " ".to_owned()
    } else {
        match text_of_arg(env, name, &a[2]) {
            Err(e) => {
                return Err(e);
            },
            Ok(s) => s,
        }
    };
    match text_of_arg(env, name, &a[0]) {
        Err(e) => Err(e),
        Ok(s) => Ok(Value::Text(pad_to(s.as_str(), len, pad.as_str(), f == Func::Lpad))),
    }
}

/// The text made of the code points from `i` on.
pub open spec fn text_of_codes(name: Seq<char>, a: Seq<ValueV>, i: int) -> Result<Seq<char>, ErrorV>
    decreases a.len() - i,
{
    if i < 0 || i >= a.len() {
        Ok(Seq::empty())
    } else {
        match a[i] {
            ValueV::Integer(n) => if !is_scalar_value(n as int) {
                Err(sql_error("char(): punto de código inválido: "@ + int_text(n as int)))
            } else {
                match text_of_codes(name, a, i + 1) {
                    Ok(rest) => Ok(seq![n as char] + rest),
                    Err(e) => Err(e),
                }
            },
            _ => Err(need_number(name, a[i])),
        }
    }
}

fn char_function(name: &str, a: &Vec<Value>) -> (r: Result<Value, Error>)
    ensures
        gives(
            r,
            if any_null(row_view(a@)) {
                Ok(ValueV::Null)
            } else {
                match text_of_codes(name@, row_view(a@), 0) {
                    Ok(s) => Ok(ValueV::Text(s)),
                    Err(e) => Err(e),
                }
            },
        ),
{
    if some_null(a) {
        return Ok(Value::Null);
    }
    let ghost av = row_view(a@);
    let mut out = String::new();
    let n: usize = a.len();
    let ghost all = text_of_codes(name@, av, 0);
    assert(all is Ok ==> out@ + all->Ok_0 =~= all->Ok_0);
    for i in 0..n
        invariant
            n == a@.len(),
            av == row_view(a@),
            all == text_of_codes(name@, av, 0),
            !any_null(av),
            (match text_of_codes(name@, av, i as int) {
                Ok(rest) => all == Ok::<Seq<char>, ErrorV>(out@ + rest),
                Err(e) => all == Err::<Seq<char>, ErrorV>(e),
            }),
    {
        assert(av[i as int] == a@[i as int]@);
        let ghost before = out@;
        match &a[i] {
            Value::Integer(k) => {
                let c = if *k < 0 || *k > 0x10FFFF {
                    None
                } else {
                    char_of_code(*k as u32)
                };
                match c {
                    Some(ch) => {
                        out.push(ch);
                        proof {
                            let rest = text_of_codes(name@, av, i + 1);
                            if rest is Ok {
                                assert(before + (seq![ch] + rest->Ok_0) =~= out@ + rest->Ok_0);
                            }
                        }
                    },
                    None => {
                        return Err(
                            sql_err(
                                cat("char(): punto de código inválido: ", i64_text(*k).as_str()),
                            ),
                        );
                    },
                }
            },
            v => {
                return Err(number_err(name, v));
            },
        }
    }
    assert(out@ + Seq::<char>::empty() =~= out@);
    Ok(Value::Text(out))
}

/// The SQL literal of a value.
pub open spec fn literal_text(env: EnvV, v: ValueV) -> Result<Seq<char>, ErrorV> {
    match v {
        ValueV::Null => Ok("NULL"@),
        ValueV::Integer(n) => Ok(int_text(n as int)),
        ValueV::Real(b) => settled(known_text(env.reals, RealOpV::Show(b))),
        ValueV::Bool(b) => Ok(
            if b {
                "TRUE"@
            } else {
                "FALSE"@
            },
        ),
        ValueV::Text(s) => Ok("'"@ + replaced(s, "'"@, "''"@, 0) + "'"@),
        ValueV::Blob(b) => Ok("X'"@ + hex_text(b) + "'"@),
    }
}

pub fn sql_quote(env: &Env, v: &Value) -> (r: Result<String, Error>)
    ensures
        gives(r, literal_text(env@, v@)),
{
    match v {
        Value::Null => Ok("NULL".to_owned()),
        Value::Integer(n) => Ok(i64_text(*n)),
        Value::Real(b) => env.text(RealOp::Show(*b)),
        Value::Bool(b) => Ok(
            if *b {
                "TRUE".to_owned()
            } else {
                "FALSE".to_owned()
            },
        ),
        Value::Text(s) => {
            proof {
                reveal_strlit("'");
            }
            Ok(cat3("'", replace_all(s.as_str(), "'", "''").as_str(), "'"))
        },
        Value::Blob(b) => Ok(cat3("X'", to_hex(b.as_slice()).as_str(), "'")),
    }
}

pub open spec fn join_call(env: EnvV, f: Func, name: Seq<char>, a: Seq<ValueV>) -> Result<
    ValueV,
    ErrorV,
> {
    match f {
        Func::Concat => if a.len() == 0 {
            Err(bad_arity(name))
        } else {
            joined_text(joined(env, name, a, 0, Seq::empty()))
        },
        Func::ConcatWs => if a.len() == 0 {
            Err(bad_arity(name))
        } else if a[0] is Null {
            Ok(ValueV::Null)
        } else {
            match text_arg(env, name, a[0]) {
                Err(e) => Err(e),
                Ok(sep) => joined_text(joined(env, name, a, 1, sep)),
            }
        },
        Func::Printf => if a.len() == 0 {
            Err(bad_arity(name))
        } else if any_null(a) {
            Ok(ValueV::Null)
        } else {
            match text_arg(env, name, a[0]) {
                Err(e) => Err(e),
                Ok(fmt) => match printed(env, fmt, a, 0, 1) {
                    Ok(s) => Ok(ValueV::Text(s)),
                    Err(e) => Err(e),
                },
            }
        },
        Func::Char => if any_null(a) {
            Ok(ValueV::Null)
        } else {
            match text_of_codes(name, a, 0) {
                Ok(s) => Ok(ValueV::Text(s)),
                Err(e) => Err(e),
            }
        },
        Func::Quote => if a.len() != 1 {
            Err(bad_arity(name))
        } else {
            match literal_text(env, a[0]) {
                Ok(s) => Ok(ValueV::Text(s)),
                Err(e) => Err(e),
            }
        },
        _ => pad_call(env, f, name, a),
    }
}

fn join_function(env: &Env, f: Func, name: &str, a: &Vec<Value>) -> (r: Result<Value, Error>)
    ensures
        gives(r, join_call(env@, f, name@, row_view(a@))),
{
    match f {
        Func::Concat => {
            if a.len() == 0 {
                return Err(arity_err(name));
            }
            let empty = String::new();
            as_text(join(env, name, a, 0, empty.as_str()))
        },
        Func::ConcatWs => {
            if a.len() == 0 {
                return Err(arity_err(name));
            }
            if matches!(a[0], Value::Null) {
                return Ok(Value::Null);
            }
            match text_of_arg(env, name, &a[0]) {
                Err(e) => Err(e),
                Ok(sep) => as_text(join(env, name, a, 1, sep.as_str())),
            }
        },
        Func::Printf => {
            if a.len() == 0 {
                return Err(arity_err(name));
            }
            if some_null(a) {
                return Ok(Value::Null);
            }
            match text_of_arg(env, name, &a[0]) {
                Err(e) => Err(e),
                Ok(fmt) => match sql_printf(env, fmt.as_str(), a, 1) {
                    Ok(s) => Ok(Value::Text(s)),
                    Err(e) => Err(e),
                },
            }
        },
        Func::Char => char_function(name, a),
        Func::Quote => {
            if a.len() != 1 {
                return Err(arity_err(name));
            }
            match sql_quote(env, &a[0]) {
                Ok(s) => Ok(Value::Text(s)),
                Err(e) => Err(e),
            }
        },
        _ => pad_function(env, f, name, a),
    }
}

// --- time ---

/// `date`, `time` and `datetime` of an instant.
pub open spec fn time_text(a: Seq<ValueV>, fmt: Seq<char>) -> Result<ValueV, ErrorV> {
    if a.len() != 1 {
        Err(sql_error("se esperaba 1 argumento (epoch ms INTEGER)"@))
    } else {
        match a[0] {
            ValueV::Null => Ok(ValueV::Null),
            ValueV::Integer(ms) => Ok(ValueV::Text(formatted(fmt, 0, instant_parts(ms)))),
            _ => Err(sql_error("se esperaba epoch ms (INTEGER), no "@ + kind_name_of(a[0]))),
        }
    }
}

pub fn fmt_time(a: &Vec<Value>, fmt: &str) -> (r: Result<Value, Error>)
    ensures
        gives(r, time_text(row_view(a@), fmt@)),
{
    if a.len() != 1 {
        return Err(sql_lit("se esperaba 1 argumento (epoch ms INTEGER)"));
    }
    match &a[0] {
        Value::Null => Ok(Value::Null),
        Value::Integer(ms) => Ok(Value::Text(strftime(fmt, *ms))),
        v => Err(sql_err(cat("se esperaba epoch ms (INTEGER), no ", v.kind_name()))),
    }
}

pub open spec fn time_call(env: EnvV, f: Func, name: Seq<char>, a: Seq<ValueV>) -> Result<
    ValueV,
    ErrorV,
> {
    match f {
        Func::Now => if a.len() != 0 {
            Err(bad_arity(name))
        } else {
            Ok(ValueV::Integer(env.now))
        },
        Func::Date => time_text(a, "%Y-%m-%d"@),
        Func::Time => time_text(a, "%H:%M:%S"@),
        Func::Datetime => time_text(a, "%Y-%m-%d %H:%M:%S"@),
        _ => if a.len() != 1 {
            Err(bad_arity(name))
        } else {
            match a[0] {
                ValueV::Null => Ok(ValueV::Null),
                ValueV::Integer(ms) => Ok(ValueV::Integer((ms as int / 1000) as i64)),
                _ => Err(
                    sql_error("unixepoch() espera epoch ms (INTEGER), no "@ + kind_name_of(a[0])),
                ),
            }
        },
    }
}

fn time_function(env: &Env, f: Func, name: &str, a: &Vec<Value>) -> (r: Result<Value, Error>)
    ensures
        gives(r, time_call(env@, f, name@, row_view(a@))),
{
    match f {
        Func::Now => if a.len() != 0 {
            Err(arity_err(name))
        } else {
            Ok(Value::Integer(env.now))
        },
        Func::Date => fmt_time(a, "%Y-%m-%d"),
        Func::Time => fmt_time(a, "%H:%M:%S"),
        Func::Datetime => fmt_time(a, "%Y-%m-%d %H:%M:%S"),
        _ => {
            if a.len() != 1 {
                return Err(arity_err(name));
            }
            match &a[0] {
                Value::Null => Ok(Value::Null),
                Value::Integer(ms) => {
                    let q: i64 = match ms.checked_div_euclid(1000) {
                        Some(q) => q,
                        None => 0,
                    };
                    Ok(Value::Integer(q))
                },
                v => Err(
                    sql_err(cat("unixepoch() espera epoch ms (INTEGER), no ", v.kind_name())),
                ),
            }
        },
    }
}

// --- vectors ---

/// The first argument that is no number.
pub open spec fn first_non_number(a: Seq<ValueV>, i: int) -> Option<ValueV>
    decreases a.len() - i,
{
    if i < 0 || i >= a.len() {
        None
    } else if a[i] is Integer || a[i] is Real {
        first_non_number(a, i + 1)
    } else {
        Some(a[i])
    }
}

pub open spec fn vector_call(env: EnvV, f: Func, name: Seq<char>, a: Seq<ValueV>) -> Result<
    ValueV,
    ErrorV,
> {
    match f {
        Func::Distance(d) => if a.len() != 2 {
            Err(bad_arity(name))
        } else {
            match (a[0], a[1]) {
                (ValueV::Null, _) => Ok(ValueV::Null),
                (_, ValueV::Null) => Ok(ValueV::Null),
                (ValueV::Blob(x), ValueV::Blob(y)) => match settled(
                    known_distance(env.reals, RealOpV::Distance(d, x, y)),
                ) {
                    Ok(Ok(b)) => Ok(ValueV::Real(b)),
                    Ok(Err(msg)) => Err(sql_error(msg)),
                    Err(e) => Err(e),
                },
                _ => Err(sql_error(name + "() requiere dos BLOB de vector"@)),
            }
        },
        _ => if any_null(a) {
            Ok(ValueV::Null)
        } else {
            match first_non_number(a, 0) {
                Some(v) => Err(need_number(name, v)),
                None => match settled(known_bytes(env.reals, RealOpV::Pack(f == Func::VectorI8, a))) {
                    Ok(b) => Ok(ValueV::Blob(b)),
                    Err(e) => Err(e),
                },
            }
        },
    }
}

fn vector_function(env: &Env, f: Func, name: &str, a: &Vec<Value>) -> (r: Result<Value, Error>)
    ensures
        gives(r, vector_call(env@, f, name@, row_view(a@))),
{
    match f {
        Func::Distance(d) => {
            if a.len() != 2 {
                return Err(arity_err(name));
            }
            match (&a[0], &a[1]) {
                (Value::Null, _) => Ok(Value::Null),
                (_, Value::Null) => Ok(Value::Null),
                (Value::Blob(x), Value::Blob(y)) => {
                    assert(x@.subrange(0, x@.len() as int) =~= x@);
                    assert(y@.subrange(0, y@.len() as int) =~= y@);
                    let xs = crate::bytes::copy_range(x.as_slice(), 0, x.len());
                    let ys = crate::bytes::copy_range(y.as_slice(), 0, y.len());
                    match env.reals.distance(RealOp::Distance(d, xs, ys)) {
                        Ok(Ok(b)) => Ok(Value::Real(b)),
                        Ok(Err(msg)) => Err(sql_err(msg)),
                        Err(op) => Err(Error::NeedsReal(op)),
                    }
                },
                _ => Err(sql_err(cat(name, "() requiere dos BLOB de vector"))),
            }
        },
        _ => {
            if some_null(a) {
                return Ok(Value::Null);
            }
            let ghost av = row_view(a@);
            let n: usize = a.len();
            for i in 0..n
                invariant
                    n == a@.len(),
                    av == row_view(a@),
                    !any_null(av),
                    !(f is Distance),
                    first_non_number(av, 0) == first_non_number(av, i as int),
            {
                assert(av[i as int] == a@[i as int]@);
                match &a[i] {
                    Value::Integer(_) | Value::Real(_) => {},
                    v => {
                        return Err(number_err(name, v));
                    },
                }
            }
            match env.reals.bytes(RealOp::Pack(f == Func::VectorI8, clone_row(a))) {
                Ok(b) => Ok(Value::Blob(b)),
                Err(op) => Err(Error::NeedsReal(op)),
            }
        },
    }
}

// --- dispatch ---

/// The value of a function on its arguments; `name` is in lower case.
pub open spec fn apply(env: EnvV, f: Func, name: Seq<char>, a: Seq<ValueV>) -> Result<ValueV, ErrorV> {
    match f {
        Func::Upper | Func::Lower | Func::Length | Func::Trim | Func::Ltrim | Func::Rtrim | Func::Reverse
        | Func::Hex | Func::Unicode => text_call(f, name, a),
        Func::Coalesce | Func::Ifnull | Func::Nullif | Func::Typeof | Func::Min | Func::Max => choice_call(
            env,
            f,
            name,
            a,
        ),
        Func::Substr => substr_call(a),
        Func::Replace => replace_call(name, a),
        Func::Instr | Func::Glob | Func::Strftime => pair_call(f, name, a),
        Func::Concat | Func::ConcatWs | Func::Printf | Func::Char | Func::Quote | Func::Lpad | Func::Rpad
        => join_call(env, f, name, a),
        Func::Now | Func::Date | Func::Time | Func::Datetime | Func::Unixepoch => time_call(
            env,
            f,
            name,
            a,
        ),
        Func::Vector | Func::VectorI8 | Func::Distance(_) => vector_call(env, f, name, a),
        Func::Json | Func::JsonValid | Func::JsonType | Func::JsonExtract | Func::JsonArrayLength
        | Func::JsonObject | Func::JsonArray | Func::JsonQuote => json_call(env, f, name, a),
        _ => math_call(env, f, name, a),
    }
}

/// The value of a scalar function, whose name may be written in any case.
#[verifier::opaque]
pub open spec fn call(env: EnvV, name: Seq<char>, a: Seq<ValueV>) -> Result<ValueV, ErrorV> {
    let lname = ascii_lower_all(name);
    match func_named(lname) {
        Some(f) => apply(env, f, lname, a),
        None => Err(sql_error("función desconocida: "@ + name + "()"@)),
    }
}

pub fn call_function(env: &Env, name: &str, a: &Vec<Value>) -> (r: Result<Value, Error>)
    ensures
        gives(r, call(env@, name@, row_view(a@))),
{
    proof {
        reveal(call);
    }
    let lname = lower_ascii(name);
    let l = lname.as_str();
    let f = match func_of(l) {
        Some(f) => f,
        None => {
            return Err(sql_err(cat3("función desconocida: ", name, "()")));
        },
    };
    match f {
        Func::Upper | Func::Lower | Func::Length | Func::Trim | Func::Ltrim | Func::Rtrim | Func::Reverse
        | Func::Hex | Func::Unicode => text_function(f, l, a),
        Func::Coalesce | Func::Ifnull | Func::Nullif | Func::Typeof | Func::Min | Func::Max =>
        choice_function(env, f, l, a),
        Func::Substr => substr_function(a),
        Func::Replace => replace_function(l, a),
        Func::Instr | Func::Glob | Func::Strftime => pair_function(f, l, a),
        Func::Concat | Func::ConcatWs | Func::Printf | Func::Char | Func::Quote | Func::Lpad | Func::Rpad
        => join_function(env, f, l, a),
        Func::Now | Func::Date | Func::Time | Func::Datetime | Func::Unixepoch => time_function(
            env,
            f,
            l,
            a,
        ),
        Func::Vector | Func::VectorI8 | Func::Distance(_) => vector_function(env, f, l, a),
        Func::Json | Func::JsonValid | Func::JsonType | Func::JsonExtract | Func::JsonArrayLength
        | Func::JsonObject | Func::JsonArray | Func::JsonQuote => json_function(env, f, l, a),
        _ => math_function(env, f, l, a),
    }
}

} // verus!
