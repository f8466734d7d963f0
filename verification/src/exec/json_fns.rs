//! JSON scalar functions and the `->` operators.
use vstd::prelude::*;

use crate::error::{gives, sql_err, sql_lit, Error, ErrorV};
#[allow(unused_imports)]
use crate::error::sql_error;
use crate::exec::functions::{arity_err, some_null, text_of_arg, Func};
#[allow(unused_imports)]
use crate::exec::functions::{any_null, bad_arity, text_arg};
use crate::exec::ops::{Env, EnvV};
#[allow(unused_imports)]
use crate::exec::ops::settled;
use crate::record::{Value, ValueV};
#[allow(unused_imports)]
use crate::record::{kind_name_of, row_view};
use crate::sql::ast::BinOp;
use crate::sql::json::{clone_json, extract, kind_name, parse, to_string, Json, JsonV};
#[allow(unused_imports)]
use crate::sql::json::{array_v, document, extracted, json_kind, json_text, object_v};
use crate::text::{cat, cat3, chars_of, i64_text};
#[allow(unused_imports)]
use crate::text::int_text;

verus! {

/// The document that a text is; `None` where it is not JSON.
pub open spec fn parsed(env: EnvV, s: Seq<char>) -> Result<Option<JsonV>, ErrorV> {
    match document(s, env.reals) {
        Ok(j) => Ok(Some(j)),
        Err(None) => Ok(None),
        Err(Some(op)) => Err(ErrorV::NeedsReal(op)),
    }
}

fn parse_doc(env: &Env, s: &str) -> (r: Result<Option<Json>, Error>)
    ensures
        (match parsed(env@, s@) {
            Ok(Some(j)) => r is Ok && r->Ok_0 is Some && r->Ok_0->0@ == j,
            Ok(None) => r is Ok && r->Ok_0 is None,
            Err(e) => r is Err && r->Err_0@ == e,
        }),
{
    match parse(s, env.reals) {
        Ok(j) => Ok(j),
        Err(op) => Err(Error::NeedsReal(op)),
    }
}

/// A document that must be JSON.
pub open spec fn required_doc(env: EnvV, s: Seq<char>, msg: Seq<char>) -> Result<JsonV, ErrorV> {
    match parsed(env, s) {
        Ok(Some(j)) => Ok(j),
        Ok(None) => Err(sql_error(msg)),
        Err(e) => Err(e),
    }
}

fn require_doc(env: &Env, s: &str, msg: &str) -> (r: Result<Json, Error>)
    ensures
        gives(r, required_doc(env@, s@, msg@)),
{
    match parse_doc(env, s) {
        Ok(Some(j)) => Ok(j),
        Ok(None) => Err(sql_lit(msg)),
        Err(e) => Err(e),
    }
}

/// The JSON text of a value.
pub open spec fn text_value(env: EnvV, j: JsonV) -> Result<ValueV, ErrorV> {
    match settled(json_text(j, env.reals)) {
        Ok(s) => Ok(ValueV::Text(s)),
        Err(e) => Err(e),
    }
}

fn text_of_json(env: &Env, j: &Json) -> (r: Result<Value, Error>)
    ensures
        gives(r, text_value(env@, j@)),
{
    match to_string(j, env.reals) {
        Ok(s) => Ok(Value::Text(s)),
        Err(op) => Err(Error::NeedsReal(op)),
    }
}

/// A JSON value as an SQL value: scalars as they are, arrays and objects as text.
pub open spec fn sql_value(env: EnvV, j: JsonV) -> Result<ValueV, ErrorV> {
    match j {
        JsonV::Null => Ok(ValueV::Null),
        JsonV::Bool(b) => Ok(
            ValueV::Integer(
                if b {
                    1
                } else {
                    0
                },
            ),
        ),
        JsonV::Int(n) => Ok(ValueV::Integer(n)),
        JsonV::Float(b) => Ok(ValueV::Real(b)),
        JsonV::Str(s) => Ok(ValueV::Text(s)),
        _ => text_value(env, j),
    }
}

pub fn json_to_value(env: &Env, j: &Json) -> (r: Result<Value, Error>)
    ensures
        gives(r, sql_value(env@, j@)),
{
    match j {
        Json::Null => Ok(Value::Null),
        Json::Bool(b) => Ok(
            Value::Integer(
                if *b {
                    1
                } else {
                    0
                },
            ),
        ),
        Json::Int(n) => Ok(Value::Integer(*n)),
        Json::Float(b) => Ok(Value::Real(*b)),
        Json::Str(s) => Ok(Value::Text(s.clone())),
        _ => text_of_json(env, j),
    }
}

/// An SQL value as a JSON value.
pub open spec fn json_value(v: ValueV) -> Result<JsonV, ErrorV> {
    match v {
        ValueV::Null => Ok(JsonV::Null),
        ValueV::Bool(b) => Ok(JsonV::Bool(b)),
        ValueV::Integer(n) => Ok(JsonV::Int(n)),
        ValueV::Real(b) => Ok(JsonV::Float(b)),
        ValueV::Text(s) => Ok(JsonV::Str(s)),
        ValueV::Blob(_) => Err(sql_error("JSON no admite BLOB"@)),
    }
}

pub fn value_to_json(v: &Value) -> (r: Result<Json, Error>)
    ensures
        gives(r, json_value(v@)),
{
    match v {
        Value::Null => Ok(Json::Null),
        Value::Bool(b) => Ok(Json::Bool(*b)),
        Value::Integer(n) => Ok(Json::Int(*n)),
        Value::Real(b) => Ok(Json::Float(*b)),
        Value::Text(s) => Ok(Json::Str(s.clone())),
        Value::Blob(_) => Err(sql_lit("JSON no admite BLOB")),
    }
}

/// The scalar values go to JSON and back unchanged, except that a truth value comes
/// back as a number.
pub proof fn json_scalar_round_trip(env: EnvV, v: ValueV)
    requires
        !(v is Blob),
        !(v is Bool),
    ensures
        json_value(v) is Ok,
        sql_value(env, json_value(v)->Ok_0) == Ok::<ValueV, ErrorV>(v),
{
}

// --- document and optional path ---

/// `f(json [, path])`: the node that the arguments lead to. `Ok(None)` where an
/// argument is NULL.
pub open spec fn node_call(env: EnvV, a: Seq<ValueV>, usage: Seq<char>, invalid: Seq<char>) -> Result<
    Option<Option<JsonV>>,
    ErrorV,
> {
    if (a.len() == 1 && a[0] is Null) || (a.len() == 2 && (a[0] is Null || a[1] is Null)) {
        Ok(None)
    } else if a.len() == 1 && a[0] is Text {
        match required_doc(env, a[0]->Text_0, invalid) {
            Ok(j) => Ok(Some(Some(j))),
            Err(e) => Err(e),
        }
    } else if a.len() == 2 && a[0] is Text && a[1] is Text {
        match required_doc(env, a[0]->Text_0, invalid) {
            Ok(j) => Ok(Some(extracted(j, a[1]->Text_0))),
            Err(e) => Err(e),
        }
    } else {
        Err(sql_error(usage))
    }
}

fn node_function(env: &Env, a: &Vec<Value>, usage: &str, invalid: &str) -> (r: Result<
    Option<Option<Json>>,
    Error,
>)
    ensures
        (match node_call(env@, row_view(a@), usage@, invalid@) {
            Ok(None) => r is Ok && r->Ok_0 is None,
            Ok(Some(None)) => r is Ok && r->Ok_0 is Some && r->Ok_0->0 is None,
            Ok(Some(Some(j))) => r is Ok && r->Ok_0 is Some && r->Ok_0->0 is Some
                && r->Ok_0->0->0@ == j,
            Err(e) => r is Err && r->Err_0@ == e,
        }),
{
    if a.len() == 1 {
        match &a[0] {
            Value::Null => Ok(None),
            Value::Text(s) => match require_doc(env, s.as_str(), invalid) {
                Ok(j) => Ok(Some(Some(j))),
                Err(e) => Err(e),
            },
            _ => Err(sql_lit(usage)),
        }
    } else if a.len() == 2 {
        match (&a[0], &a[1]) {
            (Value::Null, _) => Ok(None),
            (_, Value::Null) => Ok(None),
            (Value::Text(s), Value::Text(p)) => match require_doc(env, s.as_str(), invalid) {
                Ok(j) => match extract(&j, p.as_str()) {
                    Some(x) => Ok(Some(Some(clone_json(x)))),
                    None => Ok(Some(None)),
                },
                Err(e) => Err(e),
            },
            _ => Err(sql_lit(usage)),
        }
    } else {
        Err(sql_lit(usage))
    }
}

// --- extraction ---

/// The path that an argument gives.
pub open spec fn path_arg(v: ValueV) -> Result<Seq<char>, ErrorV> {
    match v {
        ValueV::Text(s) => Ok(s),
        _ => Err(sql_error("la ruta de json_extract debe ser TEXT (p. ej. '$.a')"@)),
    }
}

/// The nodes of the paths from `i` on; a missing one is null.
pub open spec fn nodes_at(root: JsonV, a: Seq<ValueV>, i: int) -> Result<Seq<JsonV>, ErrorV>
    decreases a.len() - i,
{
    if i < 0 || i >= a.len() {
        Ok(Seq::empty())
    } else {
        match path_arg(a[i]) {
            Err(e) => Err(e),
            Ok(p) => match nodes_at(root, a, i + 1) {
                Err(e) => Err(e),
                Ok(rest) => Ok(
                    seq![
                        match extracted(root, p) {
                            Some(j) => j,
                            None => JsonV::Null,
                        },
                    ] + rest,
                ),
            },
        }
    }
}

pub open spec fn extract_call(env: EnvV, a: Seq<ValueV>) -> Result<ValueV, ErrorV> {
    if a.len() > 0 && a[0] is Null || a.len() > 1 && any_null(a) {
        Ok(ValueV::Null)
    } else if a.len() > 1 && a[0] is Text {
        match required_doc(env, a[0]->Text_0, "json_extract(): JSON inválido"@) {
            Err(e) => Err(e),
            Ok(root) => if a.len() == 2 {
                match path_arg(a[1]) {
                    Err(e) => Err(e),
                    Ok(p) => match extracted(root, p) {
                        Some(j) => sql_value(env, j),
                        None => Ok(ValueV::Null),
                    },
                }
            } else {
                match nodes_at(root, a, 1) {
                    Err(e) => Err(e),
                    Ok(js) => text_value(env, JsonV::Array(js)),
                }
            },
        }
    } else {
        Err(sql_error("json_extract(json TEXT, path TEXT, …)"@))
    }
}

fn json_path(v: &Value) -> (r: Result<String, Error>)
    ensures
        gives(r, path_arg(v@)),
{
    match v {
        Value::Text(s) => Ok(s.clone()),
        _ => Err(sql_lit("la ruta de json_extract debe ser TEXT (p. ej. '$.a')")),
    }
}

fn extract_function(env: &Env, a: &Vec<Value>) -> (r: Result<Value, Error>)
    ensures
        gives(r, extract_call(env@, row_view(a@))),
{
    if a.len() > 0 && matches!(a[0], Value::Null) {
        return Ok(Value::Null);
    }
    if a.len() > 1 {
        if some_null(a) {
            return Ok(Value::Null);
        }
        match &a[0] {
            Value::Text(s) => {
                let root = match require_doc(env, s.as_str(), "json_extract(): JSON inválido") {
                    Ok(j) => j,
                    Err(e) => {
                        return Err(e);
                    },
                };
                if a.len() == 2 {
                    let p = match json_path(&a[1]) {
                        Ok(p) => p,
                        Err(e) => {
                            return Err(e);
                        },
                    };
                    return match extract(&root, p.as_str()) {
                        Some(j) => json_to_value(env, j),
                        None => Ok(Value::Null),
                    };
                }
                return match nodes(&root, a, 1) {
                    Ok(arr) => text_of_json(env, &Json::Array(arr)),
                    Err(e) => Err(e),
                };
            },
            _ => {},
        }
    }
    Err(sql_lit("json_extract(json TEXT, path TEXT, …)"))
}

fn nodes(root: &Json, a: &Vec<Value>, first: usize) -> (r: Result<Vec<Json>, Error>)
    requires
        first <= a@.len(),
    ensures
        (match nodes_at(root@, row_view(a@), first as int) {
            Ok(js) => r is Ok && array_v(r->Ok_0@) == js,
            Err(e) => r is Err && r->Err_0@ == e,
        }),
{
    let ghost av = row_view(a@);
    let mut out: Vec<Json> = Vec::new();
    let n: usize = a.len();
    let ghost all = nodes_at(root@, av, first as int);
    assert(all is Ok ==> array_v(out@) + all->Ok_0 =~= all->Ok_0);
    for i in first..n
        invariant
            first <= n,
            n == a@.len(),
            av == row_view(a@),
            all == nodes_at(root@, av, first as int),
            (match nodes_at(root@, av, i as int) {
                Ok(rest) => all == Ok::<Seq<JsonV>, ErrorV>(array_v(out@) + rest),
                Err(e) => all == Err::<Seq<JsonV>, ErrorV>(e),
            }),
    {
        assert(av[i as int] == a@[i as int]@);
        let p = match json_path(&a[i]) {
            Ok(p) => p,
            Err(e) => {
                return Err(e);
            },
        };
        let ghost before = array_v(out@);
        let j = match extract(root, p.as_str()) {
            Some(j) => clone_json(j),
            None => Json::Null,
        };
        let ghost jv = j@;
        out.push(j);
        proof {
            assert(array_v(out@) =~= before.push(jv));
            let rest = nodes_at(root@, av, i + 1);
            if rest is Ok {
                assert(before + (seq![jv] + rest->Ok_0) =~= array_v(out@) + rest->Ok_0);
            }
        }
    }
    assert(array_v(out@) + Seq::<JsonV>::empty() =~= array_v(out@));
    Ok(out)
}

// --- construction ---

/// The members that the key and value arguments from `i` on make.
pub open spec fn members_from(env: EnvV, name: Seq<char>, a: Seq<ValueV>, i: int) -> Result<
    Seq<(Seq<char>, JsonV)>,
    ErrorV,
>
    decreases a.len() - i,
{
    if i < 0 || i + 1 >= a.len() {
        Ok(Seq::empty())
    } else if a[i] is Null {
        Err(sql_error("json_object(): la clave no puede ser NULL"@))
    } else {
        match text_arg(env, name, a[i]) {
            Err(e) => Err(e),
            Ok(key) => match json_value(a[i + 1]) {
                Err(e) => Err(e),
                Ok(j) => match members_from(env, name, a, i + 2) {
                    Err(e) => Err(e),
                    Ok(rest) => Ok(seq![(key, j)] + rest),
                },
            },
        }
    }
}

/// The items that the arguments from `i` on make.
pub open spec fn items_from(a: Seq<ValueV>, i: int) -> Result<Seq<JsonV>, ErrorV>
    decreases a.len() - i,
{
    if i < 0 || i >= a.len() {
        Ok(Seq::empty())
    } else {
        match json_value(a[i]) {
            Err(e) => Err(e),
            Ok(j) => match items_from(a, i + 1) {
                Err(e) => Err(e),
                Ok(rest) => Ok(seq![j] + rest),
            },
        }
    }
}

fn object_function(env: &Env, name: &str, a: &Vec<Value>) -> (r: Result<Value, Error>)
    requires
        a@.len() % 2 == 0,
    ensures
        gives(
            r,
            match members_from(env@, name@, row_view(a@), 0) {
                Ok(o) => text_value(env@, JsonV::Object(o)),
                Err(e) => Err(e),
            },
        ),
{
    let ghost av = row_view(a@);
    let mut out: Vec<(String, Json)> = Vec::new();
    let mut i: usize = 0;
    let ghost all = members_from(env@, name@, av, 0);
    assert(all is Ok ==> object_v(out@) + all->Ok_0 =~= all->Ok_0);
    while i < a.len()
        invariant
            i <= a@.len(),
            i % 2 == 0,
            a@.len() % 2 == 0,
            av == row_view(a@),
            all == members_from(env@, name@, av, 0),
            (match members_from(env@, name@, av, i as int) {
                Ok(rest) => all == Ok::<Seq<(Seq<char>, JsonV)>, ErrorV>(object_v(out@) + rest),
                Err(e) => all == Err::<Seq<(Seq<char>, JsonV)>, ErrorV>(e),
            }),
        decreases a@.len() - i,
    {
        assert(av[i as int] == a@[i as int]@);
        assert(av[i + 1] == a@[i + 1]@);
        if matches!(a[i], Value::Null) {
            return Err(sql_lit("json_object(): la clave no puede ser NULL"));
        }
        let key = match text_of_arg(env, name, &a[i]) {
            Ok(s) => s,
            Err(e) => {
                return Err(e);
            },
        };
        let j = match value_to_json(&a[i + 1]) {
            Ok(j) => j,
            Err(e) => {
                return Err(e);
            },
        };
        let ghost before = object_v(out@);
        let ghost pair = (key@, j@);
        out.push((key, j));
        proof {
            assert(object_v(out@) =~= before.push(pair));
            let rest = members_from(env@, name@, av, i + 2);
            if rest is Ok {
                assert(before + (seq![pair] + rest->Ok_0) =~= object_v(out@) + rest->Ok_0);
            }
        }
        i = i + 2;
    }
    assert(object_v(out@) + Seq::<(Seq<char>, JsonV)>::empty() =~= object_v(out@));
    text_of_json(env, &Json::Object(out))
}

fn array_function(env: &Env, a: &Vec<Value>) -> (r: Result<Value, Error>)
    ensures
        gives(
            r,
            match items_from(row_view(a@), 0) {
                Ok(js) => text_value(env@, JsonV::Array(js)),
                Err(e) => Err(e),
            },
        ),
{
    let ghost av = row_view(a@);
    let mut out: Vec<Json> = Vec::new();
    let n: usize = a.len();
    let ghost all = items_from(av, 0);
    assert(all is Ok ==> array_v(out@) + all->Ok_0 =~= all->Ok_0);
    for i in 0..n
        invariant
            n == a@.len(),
            av == row_view(a@),
            all == items_from(av, 0),
            (match items_from(av, i as int) {
                Ok(rest) => all == Ok::<Seq<JsonV>, ErrorV>(array_v(out@) + rest),
                Err(e) => all == Err::<Seq<JsonV>, ErrorV>(e),
            }),
    {
        assert(av[i as int] == a@[i as int]@);
        let j = match value_to_json(&a[i]) {
            Ok(j) => j,
            Err(e) => {
                return Err(e);
            },
        };
        let ghost before = array_v(out@);
        let ghost jv = j@;
        out.push(j);
        proof {
            assert(array_v(out@) =~= before.push(jv));
            let rest = items_from(av, i + 1);
            if rest is Ok {
                assert(before + (seq![jv] + rest->Ok_0) =~= array_v(out@) + rest->Ok_0);
            }
        }
    }
    assert(array_v(out@) + Seq::<JsonV>::empty() =~= array_v(out@));
    text_of_json(env, &Json::Array(out))
}

// --- dispatch ---

pub open spec fn json_call(env: EnvV, f: Func, name: Seq<char>, a: Seq<ValueV>) -> Result<
    ValueV,
    ErrorV,
> {
    match f {
        Func::Json => if a.len() != 1 {
            Err(bad_arity(name))
        } else {
            match a[0] {
                ValueV::Null => Ok(ValueV::Null),
                ValueV::Text(s) => match required_doc(env, s, "json(): texto JSON inválido"@) {
                    Ok(j) => text_value(env, j),
                    Err(e) => Err(e),
                },
                _ => Err(sql_error("json() espera TEXT, no "@ + kind_name_of(a[0]))),
            }
        },
        Func::JsonValid => if a.len() != 1 {
            Err(bad_arity(name))
        } else {
            match a[0] {
                ValueV::Null => Ok(ValueV::Null),
                ValueV::Text(s) => match parsed(env, s) {
                    Ok(j) => Ok(ValueV::Bool(j is Some)),
                    Err(e) => Err(e),
                },
                _ => Ok(ValueV::Bool(false)),
            }
        },
        Func::JsonType => match node_call(
            env,
            a,
            "json_type(json TEXT [, path TEXT])"@,
            "json_type(): JSON inválido"@,
        ) {
            Ok(Some(Some(j))) => Ok(ValueV::Text(json_kind(j))),
            Ok(_) => Ok(ValueV::Null),
            Err(e) => Err(e),
        },
        Func::JsonArrayLength => match node_call(
            env,
            a,
            "json_array_length(json TEXT [, path TEXT])"@,
            "json_array_length(): JSON inválido"@,
        ) {
            Ok(None) => Ok(ValueV::Null),
            Ok(Some(Some(JsonV::Array(x)))) => Ok(ValueV::Integer(x.len() as i64)),
            Ok(_) => Ok(ValueV::Integer(0)),
            Err(e) => Err(e),
        },
        Func::JsonExtract => extract_call(env, a),
        Func::JsonObject => if a.len() % 2 != 0 {
            Err(sql_error("json_object() requiere pares clave/valor"@))
        } else {
            match members_from(env, name, a, 0) {
                Ok(o) => text_value(env, JsonV::Object(o)),
                Err(e) => Err(e),
            }
        },
        Func::JsonArray => match items_from(a, 0) {
            Ok(js) => text_value(env, JsonV::Array(js)),
            Err(e) => Err(e),
        },
        _ => if a.len() != 1 {
            Err(bad_arity(name))
        } else {
            match json_value(a[0]) {
                Ok(j) => text_value(env, j),
                Err(e) => Err(e),
            }
        },
    }
}

pub fn json_function(env: &Env, f: Func, name: &str, a: &Vec<Value>) -> (r: Result<Value, Error>)
    ensures
        gives(r, json_call(env@, f, name@, row_view(a@))),
{
    match f {
        Func::Json => {
            if a.len() != 1 {
                return Err(arity_err(name));
            }
            match &a[0] {
                Value::Null => Ok(Value::Null),
                Value::Text(s) => match require_doc(env, s.as_str(), "json(): texto JSON inválido") {
                    Ok(j) => text_of_json(env, &j),
                    Err(e) => Err(e),
                },
                v => Err(sql_err(cat("json() espera TEXT, no ", v.kind_name()))),
            }
        },
        Func::JsonValid => {
            if a.len() != 1 {
                return Err(arity_err(name));
            }
            match &a[0] {
                Value::Null => Ok(Value::Null),
                Value::Text(s) => match parse_doc(env, s.as_str()) {
                    Ok(j) => Ok(Value::Bool(j.is_some())),
                    Err(e) => Err(e),
                },
                _ => Ok(Value::Bool(false)),
            }
        },
        Func::JsonType => match node_function(
            env,
            a,
            "json_type(json TEXT [, path TEXT])",
            "json_type(): JSON inválido",
        ) {
            Ok(Some(Some(j))) => Ok(Value::Text(kind_name(&j).to_owned())),
            Ok(_) => Ok(Value::Null),
            Err(e) => Err(e),
        },
        Func::JsonArrayLength => match node_function(
            env,
            a,
            "json_array_length(json TEXT [, path TEXT])",
            "json_array_length(): JSON inválido",
        ) {
            Ok(None) => Ok(Value::Null),
            Ok(Some(Some(Json::Array(x)))) => Ok(Value::Integer(x.len() as i64)),
            Ok(_) => Ok(Value::Integer(0)),
            Err(e) => Err(e),
        },
        Func::JsonExtract => extract_function(env, a),
        Func::JsonObject => {
            if a.len() % 2 != 0 {
                return Err(sql_lit("json_object() requiere pares clave/valor"));
            }
            object_function(env, name, a)
        },
        Func::JsonArray => array_function(env, a),
        _ => {
            if a.len() != 1 {
                return Err(arity_err(name));
            }
            match value_to_json(&a[0]) {
                Ok(j) => text_of_json(env, &j),
                Err(e) => Err(e),
            }
        },
    }
}

// --- the operators -> and ->> ---

/// The path that the right operand means: a path as it stands, a key, or an index.
pub open spec fn arrow_path(key: ValueV) -> Result<Seq<char>, ErrorV> {
    match key {
        ValueV::Integer(n) => Ok("$["@ + int_text(n as int) + "]"@),
        ValueV::Text(s) => if s.len() > 0 && s[0] == '$' {
            Ok(s)
        } else {
            Ok("$."@ + s)
        },
        _ => Err(
            sql_error("la clave de ->/->> debe ser texto o entero, no "@ + kind_name_of(key)),
        ),
    }
}

/// `doc -> key` (as JSON text) and `doc ->> key` (as an SQL value).
pub open spec fn arrow_value(env: EnvV, op: BinOp, doc: ValueV, key: ValueV) -> Result<
    ValueV,
    ErrorV,
> {
    if doc is Null || key is Null {
        Ok(ValueV::Null)
    } else {
        match doc {
            ValueV::Text(text) => match arrow_path(key) {
                Err(e) => Err(e),
                Ok(path) => match required_doc(env, text, "->/->>: JSON inválido"@) {
                    Err(e) => Err(e),
                    Ok(root) => match extracted(root, path) {
                        None => Ok(ValueV::Null),
                        Some(j) => if op == BinOp::JsonGet {
                            text_value(env, j)
                        } else {
                            sql_value(env, j)
                        },
                    },
                },
            },
            _ => Err(
                sql_error("->/->> requieren TEXT JSON a la izquierda, no "@ + kind_name_of(doc)),
            ),
        }
    }
}

pub fn json_arrow(env: &Env, op: BinOp, doc: &Value, key: &Value) -> (r: Result<Value, Error>)
    ensures
        gives(r, arrow_value(env@, op, doc@, key@)),
{
    if matches!(doc, Value::Null) || matches!(key, Value::Null) {
        return Ok(Value::Null);
    }
    let text = match doc {
        Value::Text(s) => s,
        v => {
            return Err(
                sql_err(cat("->/->> requieren TEXT JSON a la izquierda, no ", v.kind_name())),
            );
        },
    };
    let path = match key {
        Value::Integer(n) => cat3("$[", i64_text(*n).as_str(), "]"),
        Value::Text(s) => {
            let cs = chars_of(s.as_str());
            if cs.len() > 0 && cs[0] == '$' {
                s.clone()
            } else {
                cat("$.", s.as_str())
            }
        },
        v => {
            return Err(
                sql_err(cat("la clave de ->/->> debe ser texto o entero, no ", v.kind_name())),
            );
        },
    };
    let root = match require_doc(env, text.as_str(), "->/->>: JSON inválido") {
        Ok(j) => j,
        Err(e) => {
            return Err(e);
        },
    };
    match extract(&root, path.as_str()) {
        None => Ok(Value::Null),
        Some(j) => if op == BinOp::JsonGet {
            text_of_json(env, j)
        } else {
            json_to_value(env, j)
        },
    }
}

} // verus!
