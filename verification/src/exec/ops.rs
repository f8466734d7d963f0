//! Operations on values: truth, comparison, arithmetic and conversion.
use vstd::prelude::*;
use vstd::utf8::{decode_utf8, encode_utf8, valid_utf8};

use crate::bytes::copy_range;
#[allow(unused_imports)]
use crate::bytes::lex_lt;
use crate::catalog::ColType;
use crate::error::{sql_err, sql_lit, Error, ErrorV};
#[allow(unused_imports)]
use crate::error::sql_error;
use crate::reals::{
    magnitude_of, nan, negated, order_i64, order_reals, Binary, Order, RealOp, RealOpV, RealTable, RealTableV,
    INF_BITS,
};
#[allow(unused_imports)]
use crate::reals::{
    answer, int_order, is_nan, known_bits, places_v, RealAnswerV, known_int, known_numeral, known_text, magnitude, negate, rank, real_order,
    reverse_order,
};
use crate::record::{text_of_utf8, Value, ValueV};
#[allow(unused_imports)]
use crate::record::kind_name_of;
use crate::sql::ast::BinOp;
use crate::text::{cat, cat4, chars_of, i64_text, lower_ascii, parse_i64, str_eq, string_range, trim_bounds};
#[allow(unused_imports)]
use crate::text::{ascii_lower_all, i64_of, int_text, trim_end, trim_start};

verus! {

/// The place of an evaluation inside its statement: each step says which part of the one
/// before it is evaluated.
#[derive(Clone, Copy, Debug)]
pub enum Place<'a> {
    Start,
    Step(&'a Place<'a>, usize),
}

pub open spec fn place_v(p: Place<'_>) -> Seq<int>
    decreases p,
{
    match p {
        Place::Start => Seq::empty(),
        Place::Step(before, i) => place_v(*before).push(i as int),
    }
}

/// The steps that lead to a place.
fn steps(p: &Place<'_>) -> (r: Vec<usize>)
    ensures
        places_v(r@) == place_v(*p),
    decreases p,
{
    match p {
        Place::Start => {
            let r: Vec<usize> = Vec::new();
            assert(places_v(r@) =~= place_v(*p));
            r
        },
        Place::Step(before, i) => {
            let mut r = steps(before);
            r.push(*i);
            assert(places_v(r@) =~= place_v(*p));
            r
        },
    }
}

/// What evaluation takes from its surroundings: the outcomes of computations on
/// reals and of draws, the current time, and the place where it stands.
#[derive(Clone, Copy, Debug)]
pub struct Env<'a> {
    pub reals: &'a RealTable,
    /// Milliseconds since the epoch.
    pub now: i64,
    /// Where the evaluation stands. No two evaluations of a statement stand at the same
    /// place, and each call of `random()` draws the number of its place.
    pub place: Place<'a>,
}

pub struct EnvV {
    pub reals: RealTableV,
    pub now: i64,
    pub place: Seq<int>,
}

impl<'a> View for Env<'a> {
    type V = EnvV;

    open spec fn view(&self) -> EnvV {
        EnvV { reals: self.reals@, now: self.now, place: place_v(self.place) }
    }
}

/// The surroundings of the evaluation number `i` inside another.
#[verifier::opaque]
pub open spec fn branch(env: EnvV, i: int) -> EnvV {
    EnvV { reals: env.reals, now: env.now, place: env.place.push(i) }
}

/// The number that `random()` gives at a place.
pub open spec fn drawn(env: EnvV) -> Result<i64, ErrorV> {
    settled(known_int(env.reals, RealOpV::Draw(env.place)))
}

/// What lies inside one part of an evaluation never stands at the place of what lies inside
/// another part, nor at the place of the evaluation itself: the places differ, so that the
/// numbers drawn there are drawn apart. The time and the outcomes on reals are the same
/// everywhere.
pub proof fn places_differ(env: EnvV, i: int, j: int, a: Seq<int>, b: Seq<int>)
    ensures
        i != j ==> branch(env, i).place + a != branch(env, j).place + b,
        branch(env, i).place + a != env.place,
        branch(env, i).now == env.now,
        branch(env, i).reals == env.reals,
{
    reveal(branch);
    let n = env.place.len() as int;
    assert((branch(env, i).place + a)[n] == i);
    assert((branch(env, j).place + b)[n] == j);
    assert((branch(env, i).place + a).len() > n);
}

/// A draw is asked for where the number of its place is missing, and for no other place; the
/// number of a place that is there stays what it is.
pub proof fn draws_are_asked_once(env: EnvV)
    ensures
        (match answer(env.reals, RealOpV::Draw(env.place)) {
            Some(RealAnswerV::Int(n)) => drawn(env) == Ok::<i64, ErrorV>(n),
            _ => drawn(env) == Err::<i64, ErrorV>(ErrorV::NeedsReal(RealOpV::Draw(env.place))),
        }),
{
}

/// The outcome of a computation on reals, a missing one as an error.
pub open spec fn settled<T>(r: Result<T, RealOpV>) -> Result<T, ErrorV> {
    match r {
        Ok(x) => Ok(x),
        Err(op) => Err(ErrorV::NeedsReal(op)),
    }
}

/// The real nearest to an integer.
pub open spec fn real_of(env: EnvV, n: i64) -> Result<u64, ErrorV> {
    settled(known_bits(env.reals, RealOpV::FromInt(n)))
}

impl<'a> Env<'a> {
    /// The surroundings of the evaluation number `i` inside another.
    pub fn branch<'b>(&'b self, i: usize) -> (r: Env<'b>)
        ensures
            r@ == branch(self@, i as int),
    {
        proof {
            reveal(branch);
        }
        Env { reals: self.reals, now: self.now, place: Place::Step(&self.place, i) }
    }

    /// The number drawn at this place.
    pub fn draw(&self) -> (r: Result<i64, Error>)
        ensures
            (match drawn(self@) {
                Ok(n) => r == Ok::<i64, Error>(n),
                Err(e) => r is Err && r->Err_0@ == e,
            }),
    {
        self.integer(RealOp::Draw(steps(&self.place)))
    }

    pub fn bits(&self, op: RealOp) -> (r: Result<u64, Error>)
        ensures
            (match settled(known_bits(self@.reals, op@)) {
                Ok(b) => r == Ok::<u64, Error>(b),
                Err(e) => r is Err && r->Err_0@ == e,
            }),
    {
        match self.reals.bits(op) {
            Ok(b) => Ok(b),
            Err(o) => Err(Error::NeedsReal(o)),
        }
    }

    pub fn integer(&self, op: RealOp) -> (r: Result<i64, Error>)
        ensures
            (match settled(known_int(self@.reals, op@)) {
                Ok(b) => r == Ok::<i64, Error>(b),
                Err(e) => r is Err && r->Err_0@ == e,
            }),
    {
        match self.reals.integer(op) {
            Ok(n) => Ok(n),
            Err(o) => Err(Error::NeedsReal(o)),
        }
    }

    pub fn text(&self, op: RealOp) -> (r: Result<String, Error>)
        ensures
            (match settled(known_text(self@.reals, op@)) {
                Ok(s) => r is Ok && r->Ok_0@ == s,
                Err(e) => r is Err && r->Err_0@ == e,
            }),
    {
        match self.reals.text(op) {
            Ok(s) => Ok(s),
            Err(o) => Err(Error::NeedsReal(o)),
        }
    }

    pub fn numeral(&self, s: String) -> (r: Result<Option<u64>, Error>)
        ensures
            (match settled(known_numeral(self@.reals, s@)) {
                Ok(b) => r == Ok::<Option<u64>, Error>(b),
                Err(e) => r is Err && r->Err_0@ == e,
            }),
    {
        match self.reals.numeral(s) {
            Ok(b) => Ok(b),
            Err(o) => Err(Error::NeedsReal(o)),
        }
    }

    pub fn nearest(&self, n: i64) -> (r: Result<u64, Error>)
        ensures
            (match real_of(self@, n) {
                Ok(b) => r == Ok::<u64, Error>(b),
                Err(e) => r is Err && r->Err_0@ == e,
            }),
    {
        self.bits(RealOp::FromInt(n))
    }
}

// --- truth ---

/// Three-valued truth: `None` is unknown.
pub open spec fn truth3(v: ValueV) -> Result<Option<bool>, ErrorV> {
    match v {
        ValueV::Bool(b) => Ok(Some(b)),
        ValueV::Null => Ok(None),
        _ => Err(sql_error("se esperaba BOOLEAN, no "@ + kind_name_of(v))),
    }
}

/// Truth of a condition: unknown counts as false.
pub open spec fn truth(v: ValueV) -> Result<bool, ErrorV> {
    match truth3(v) {
        Ok(Some(b)) => Ok(b),
        Ok(None) => Ok(false),
        Err(e) => Err(e),
    }
}

pub fn truthy3(v: &Value) -> (r: Result<Option<bool>, Error>)
    ensures
        (match truth3(v@) {
            Ok(b) => r == Ok::<Option<bool>, Error>(b),
            Err(e) => r is Err && r->Err_0@ == e,
        }),
{
    match v {
        Value::Bool(b) => Ok(Some(*b)),
        Value::Null => Ok(None),
        _ => Err(sql_err(cat("se esperaba BOOLEAN, no ", v.kind_name()))),
    }
}

pub fn truthy(v: &Value) -> (r: Result<bool, Error>)
    ensures
        (match truth(v@) {
            Ok(b) => r == Ok::<bool, Error>(b),
            Err(e) => r is Err && r->Err_0@ == e,
        }),
{
    match truthy3(v) {
        Ok(Some(b)) => Ok(b),
        Ok(None) => Ok(false),
        Err(e) => Err(e),
    }
}

// --- comparison ---

/// Lexicographic order of byte strings.
pub open spec fn bytes_order(a: Seq<u8>, b: Seq<u8>) -> Order
    decreases a.len(),
{
    if a.len() == 0 && b.len() == 0 {
        Order::Equal
    } else if a.len() == 0 {
        Order::Less
    } else if b.len() == 0 {
        Order::Greater
    } else if a[0] != b[0] {
        int_order(a[0] as int, b[0] as int)
    } else {
        bytes_order(a.drop_first(), b.drop_first())
    }
}

/// The order of byte strings is the order of keys.
pub proof fn bytes_order_is_key_order(a: Seq<u8>, b: Seq<u8>)
    ensures
        (bytes_order(a, b) == Order::Less) == lex_lt(a, b),
        (bytes_order(a, b) == Order::Equal) == (a == b),
    decreases a.len(),
{
    if a.len() == 0 && b.len() == 0 {
        assert(a =~= b);
    } else if a.len() > 0 && b.len() > 0 && a[0] == b[0] {
        bytes_order_is_key_order(a.drop_first(), b.drop_first());
        if a.drop_first() == b.drop_first() {
            assert(a =~= seq![a[0]] + a.drop_first());
            assert(b =~= seq![b[0]] + b.drop_first());
        }
    }
}

pub fn order_bytes(a: &[u8], b: &[u8]) -> (r: Order)
    ensures
        r == bytes_order(a@, b@),
{
    let mut i: usize = 0;
    assert(a@.skip(0) =~= a@);
    assert(b@.skip(0) =~= b@);
    while i < a.len() && i < b.len()
        invariant
            i <= a@.len(),
            i <= b@.len(),
            bytes_order(a@, b@) == bytes_order(a@.skip(i as int), b@.skip(i as int)),
        decreases a@.len() - i,
    {
        if a[i] < b[i] {
            return Order::Less;
        }
        if a[i] > b[i] {
            return Order::Greater;
        }
        assert(a@.skip(i as int).drop_first() =~= a@.skip(i + 1));
        assert(b@.skip(i as int).drop_first() =~= b@.skip(i + 1));
        i = i + 1;
    }
    if i < b.len() {
        Order::Less
    } else if i < a.len() {
        Order::Greater
    } else {
        Order::Equal
    }
}

pub open spec fn bool_order(a: bool, b: bool) -> Order {
    int_order(
        if a {
            1
        } else {
            0
        },
        if b {
            1
        } else {
            0
        },
    )
}

/// The order of two values: unknown where one is NULL or a NaN is involved, an
/// error between values of different types. INTEGER and REAL compare as reals.
pub open spec fn value_order(env: EnvV, a: ValueV, b: ValueV) -> Result<Option<Order>, ErrorV> {
    match (a, b) {
        (ValueV::Null, _) => Ok(None),
        (_, ValueV::Null) => Ok(None),
        (ValueV::Integer(x), ValueV::Integer(y)) => Ok(Some(int_order(x as int, y as int))),
        (ValueV::Integer(x), ValueV::Real(y)) => match real_of(env, x) {
            Ok(r) => Ok(real_order(r, y)),
            Err(e) => Err(e),
        },
        (ValueV::Real(x), ValueV::Integer(y)) => match real_of(env, y) {
            Ok(r) => Ok(real_order(x, r)),
            Err(e) => Err(e),
        },
        (ValueV::Real(x), ValueV::Real(y)) => Ok(real_order(x, y)),
        (ValueV::Text(x), ValueV::Text(y)) => Ok(Some(bytes_order(encode_utf8(x), encode_utf8(y)))),
        (ValueV::Blob(x), ValueV::Blob(y)) => Ok(Some(bytes_order(x, y))),
        (ValueV::Bool(x), ValueV::Bool(y)) => Ok(Some(bool_order(x, y))),
        _ => Err(
            sql_error("tipos incomparables: "@ + kind_name_of(a) + " y "@ + kind_name_of(b)),
        ),
    }
}

pub fn order_values(env: &Env, a: &Value, b: &Value) -> (r: Result<Option<Order>, Error>)
    ensures
        (match value_order(env@, a@, b@) {
            Ok(o) => r == Ok::<Option<Order>, Error>(o),
            Err(e) => r is Err && r->Err_0@ == e,
        }),
{
    match (a, b) {
        (Value::Null, _) => Ok(None),
        (_, Value::Null) => Ok(None),
        (Value::Integer(x), Value::Integer(y)) => Ok(Some(order_i64(*x, *y))),
        (Value::Integer(x), Value::Real(y)) => match env.nearest(*x) {
            Ok(f) => Ok(order_reals(f, *y)),
            Err(e) => Err(e),
        },
        (Value::Real(x), Value::Integer(y)) => match env.nearest(*y) {
            Ok(f) => Ok(order_reals(*x, f)),
            Err(e) => Err(e),
        },
        (Value::Real(x), Value::Real(y)) => Ok(order_reals(*x, *y)),
        (Value::Text(x), Value::Text(y)) => Ok(
            Some(order_bytes(x.as_str().as_bytes(), y.as_str().as_bytes())),
        ),
        (Value::Blob(x), Value::Blob(y)) => Ok(Some(order_bytes(x.as_slice(), y.as_slice()))),
        (Value::Bool(x), Value::Bool(y)) => Ok(
            Some(
                if *x == *y {
                    Order::Equal
                } else if *y {
                    Order::Less
                } else {
                    Order::Greater
                },
            ),
        ),
        _ => Err(sql_err(cat4("tipos incomparables: ", a.kind_name(), " y ", b.kind_name()))),
    }
}

/// Comparing the other way round gives the opposite order.
pub proof fn value_order_reverses(env: EnvV, a: ValueV, b: ValueV)
    requires
        value_order(env, a, b) is Ok,
    ensures
        value_order(env, b, a) == Ok::<Option<Order>, ErrorV>(
            match value_order(env, a, b)->Ok_0 {
                Some(o) => Some(reverse_order(o)),
                None => None,
            },
        ),
{
    match (a, b) {
        (ValueV::Text(x), ValueV::Text(y)) => {
            lemma_bytes_order_reverses(encode_utf8(x), encode_utf8(y));
        },
        (ValueV::Blob(x), ValueV::Blob(y)) => {
            lemma_bytes_order_reverses(x, y);
        },
        _ => {},
    }
}

proof fn lemma_bytes_order_reverses(a: Seq<u8>, b: Seq<u8>)
    ensures
        bytes_order(b, a) == reverse_order(bytes_order(a, b)),
    decreases a.len(),
{
    if a.len() > 0 && b.len() > 0 && a[0] == b[0] {
        lemma_bytes_order_reverses(a.drop_first(), b.drop_first());
    }
}

/// The order for sorting: NULL first, incomparable reals as equal.
pub open spec fn sort_order(env: EnvV, a: ValueV, b: ValueV) -> Result<Order, ErrorV> {
    match (a, b) {
        (ValueV::Null, ValueV::Null) => Ok(Order::Equal),
        (ValueV::Null, _) => Ok(Order::Less),
        (_, ValueV::Null) => Ok(Order::Greater),
        _ => match value_order(env, a, b) {
            Ok(Some(o)) => Ok(o),
            Ok(None) => Ok(Order::Equal),
            Err(e) => Err(e),
        },
    }
}

pub fn order_nulls_first(env: &Env, a: &Value, b: &Value) -> (r: Result<Order, Error>)
    ensures
        (match sort_order(env@, a@, b@) {
            Ok(o) => r == Ok::<Order, Error>(o),
            Err(e) => r is Err && r->Err_0@ == e,
        }),
{
    match (a, b) {
        (Value::Null, Value::Null) => Ok(Order::Equal),
        (Value::Null, _) => Ok(Order::Less),
        (_, Value::Null) => Ok(Order::Greater),
        _ => match order_values(env, a, b) {
            Ok(Some(o)) => Ok(o),
            Ok(None) => Ok(Order::Equal),
            Err(e) => Err(e),
        },
    }
}

/// Equality of stored values: NULL equals NULL, reals compare as numbers.
pub open spec fn values_equal(a: ValueV, b: ValueV) -> bool {
    match (a, b) {
        (ValueV::Real(x), ValueV::Real(y)) => real_order(x, y) == Some(Order::Equal),
        _ => a == b,
    }
}

pub fn value_equals(a: &Value, b: &Value) -> (r: bool)
    ensures
        r == values_equal(a@, b@),
{
    match (a, b) {
        (Value::Real(x), Value::Real(y)) => matches!(order_reals(*x, *y), Some(Order::Equal)),
        _ => crate::record::value_same(a, b),
    }
}

// --- arithmetic ---

pub open spec fn is_arithmetic(op: BinOp) -> bool {
    op == BinOp::Add || op == BinOp::Sub || op == BinOp::Mul || op == BinOp::Div || op == BinOp::Mod
}

/// The real function of an arithmetic operator.
pub open spec fn real_function(op: BinOp) -> Binary {
    match op {
        BinOp::Add => Binary::Add,
        BinOp::Sub => Binary::Sub,
        BinOp::Mul => Binary::Mul,
        BinOp::Div => Binary::Div,
        _ => Binary::Rem,
    }
}

/// Integer arithmetic: an error on overflow, NULL on division by zero.
pub open spec fn int_arith(op: BinOp, x: i64, y: i64) -> Result<ValueV, ErrorV> {
    let v = match op {
        BinOp::Add => x.checked_add(y),
        BinOp::Sub => x.checked_sub(y),
        BinOp::Mul => x.checked_mul(y),
        BinOp::Div => x.checked_div(y),
        _ => match x.checked_rem(y) {
            Some(r) => Some(r),
            None => Some(0),
        },
    };
    if (op == BinOp::Div || op == BinOp::Mod) && y == 0 {
        Ok(ValueV::Null)
    } else {
        match v {
            Some(n) => Ok(ValueV::Integer(n)),
            None => Err(sql_error("desbordamiento de entero"@)),
        }
    }
}

/// A number as a real.
pub open spec fn number_bits(env: EnvV, v: ValueV) -> Option<Result<u64, ErrorV>> {
    match v {
        ValueV::Integer(n) => Some(real_of(env, n)),
        ValueV::Real(b) => Some(Ok(b)),
        _ => None,
    }
}

/// Arithmetic on reals: NULL on division by zero and where the outcome is a NaN.
pub open spec fn real_arith(env: EnvV, op: BinOp, x: u64, y: u64) -> Result<ValueV, ErrorV> {
    if (op == BinOp::Div || op == BinOp::Mod) && rank(y) == 0 {
        Ok(ValueV::Null)
    } else {
        match settled(known_bits(env.reals, RealOpV::Binary(real_function(op), x, y))) {
            Ok(r) => if is_nan(r) {
                Ok(ValueV::Null)
            } else {
                Ok(ValueV::Real(r))
            },
            Err(e) => Err(e),
        }
    }
}

/// `a op b` for an arithmetic operator: NULL spreads, integers stay integers, an
/// integer and a real give a real.
pub open spec fn arith_value(env: EnvV, op: BinOp, a: ValueV, b: ValueV) -> Result<ValueV, ErrorV> {
    match (a, b) {
        (ValueV::Null, _) => Ok(ValueV::Null),
        (_, ValueV::Null) => Ok(ValueV::Null),
        (ValueV::Integer(x), ValueV::Integer(y)) => int_arith(op, x, y),
        _ => match (number_bits(env, a), number_bits(env, b)) {
            (Some(x), Some(y)) => match x {
                Err(e) => Err(e),
                Ok(p) => match y {
                    Err(e) => Err(e),
                    Ok(q) => real_arith(env, op, p, q),
                },
            },
            _ => Err(
                sql_error("aritmética sobre "@ + kind_name_of(a) + " y "@ + kind_name_of(b)),
            ),
        },
    }
}

/// A number as a real; `None` for other values.
pub fn num_bits(env: &Env, v: &Value) -> (r: Option<Result<u64, Error>>)
    ensures
        (match number_bits(env@, v@) {
            None => r is None,
            Some(Ok(b)) => r is Some && r->0 == Ok::<u64, Error>(b),
            Some(Err(e)) => r is Some && r->0 is Err && r->0->Err_0@ == e,
        }),
{
    match v {
        Value::Integer(n) => Some(env.nearest(*n)),
        Value::Real(b) => Some(Ok(*b)),
        _ => None,
    }
}

fn arith_ints(op: BinOp, x: i64, y: i64) -> (r: Result<Value, Error>)
    requires
        is_arithmetic(op),
    ensures
        (match int_arith(op, x, y) {
            Ok(v) => r is Ok && r->Ok_0@ == v,
            Err(e) => r is Err && r->Err_0@ == e,
        }),
{
    let v: Option<i64> = match op {
        BinOp::Add => x.checked_add(y),
        BinOp::Sub => x.checked_sub(y),
        BinOp::Mul => x.checked_mul(y),
        BinOp::Div => {
            if y == 0 {
                return Ok(Value::Null);
            }
            x.checked_div(y)
        },
        _ => {
            if y == 0 {
                return Ok(Value::Null);
            }
            match x.checked_rem(y) {
                Some(r) => Some(r),
                None => Some(0),
            }
        },
    };
    match v {
        Some(n) => Ok(Value::Integer(n)),
        None => Err(sql_lit("desbordamiento de entero")),
    }
}

fn arith_reals(env: &Env, op: BinOp, x: u64, y: u64) -> (r: Result<Value, Error>)
    requires
        is_arithmetic(op),
    ensures
        (match real_arith(env@, op, x, y) {
            Ok(v) => r is Ok && r->Ok_0@ == v,
            Err(e) => r is Err && r->Err_0@ == e,
        }),
{
    if (op == BinOp::Div || op == BinOp::Mod) && magnitude_of(y) == 0 {
        return Ok(Value::Null);
    }
    let f = match op {
        BinOp::Add => Binary::Add,
        BinOp::Sub => Binary::Sub,
        BinOp::Mul => Binary::Mul,
        BinOp::Div => Binary::Div,
        _ => Binary::Rem,
    };
    match env.bits(RealOp::Binary(f, x, y)) {
        Ok(b) => if nan(b) {
            Ok(Value::Null)
        } else {
            Ok(Value::Real(b))
        },
        Err(e) => Err(e),
    }
}

pub fn arith(env: &Env, op: BinOp, a: &Value, b: &Value) -> (r: Result<Value, Error>)
    requires
        is_arithmetic(op),
    ensures
        (match arith_value(env@, op, a@, b@) {
            Ok(v) => r is Ok && r->Ok_0@ == v,
            Err(e) => r is Err && r->Err_0@ == e,
        }),
{
    match (a, b) {
        (Value::Null, _) => Ok(Value::Null),
        (_, Value::Null) => Ok(Value::Null),
        (Value::Integer(x), Value::Integer(y)) => arith_ints(op, *x, *y),
        _ => match (num_bits(env, a), num_bits(env, b)) {
            (Some(x), Some(y)) => match x {
                Err(e) => Err(e),
                Ok(p) => match y {
                    Err(e) => Err(e),
                    Ok(q) => arith_reals(env, op, p, q),
                },
            },
            _ => Err(sql_err(cat4("aritmética sobre ", a.kind_name(), " y ", b.kind_name()))),
        },
    }
}

/// The opposite of a number.
pub open spec fn negated_value(v: ValueV) -> Result<ValueV, ErrorV> {
    match v {
        ValueV::Null => Ok(ValueV::Null),
        ValueV::Integer(n) => if n == i64::MIN {
            Err(sql_error("desbordamiento de entero"@))
        } else {
            Ok(ValueV::Integer((-n) as i64))
        },
        ValueV::Real(b) => Ok(ValueV::Real(negate(b))),
        _ => Err(sql_error("no se puede negar un "@ + kind_name_of(v))),
    }
}

pub fn neg(v: &Value) -> (r: Result<Value, Error>)
    ensures
        (match negated_value(v@) {
            Ok(x) => r is Ok && r->Ok_0@ == x,
            Err(e) => r is Err && r->Err_0@ == e,
        }),
{
    match v {
        Value::Null => Ok(Value::Null),
        Value::Integer(n) => if *n == i64::MIN {
            Err(sql_lit("desbordamiento de entero"))
        } else {
            Ok(Value::Integer(-*n))
        },
        Value::Real(b) => Ok(Value::Real(negated(*b))),
        _ => Err(sql_err(cat("no se puede negar un ", v.kind_name()))),
    }
}

// --- conversion ---

pub open spec fn col_type_name(t: ColType) -> Seq<char> {
    match t {
        ColType::Integer => "INTEGER"@,
        ColType::Real => "REAL"@,
        ColType::Text => "TEXT"@,
        ColType::Blob => "BLOB"@,
        ColType::Boolean => "BOOLEAN"@,
    }
}

pub fn col_type_text(t: ColType) -> (r: &'static str)
    ensures
        r@ == col_type_name(t),
{
    match t {
        ColType::Integer => "INTEGER",
        ColType::Real => "REAL",
        ColType::Text => "TEXT",
        ColType::Blob => "BLOB",
        ColType::Boolean => "BOOLEAN",
    }
}

pub open spec fn cast_error(v: ValueV, to: ColType) -> ErrorV {
    sql_error("no se puede convertir "@ + kind_name_of(v) + " a "@ + col_type_name(to))
}

fn cast_err(v: &Value, to: ColType) -> (r: Error)
    ensures
        r@ == cast_error(v@, to),
{
    sql_err(cat4("no se puede convertir ", v.kind_name(), " a ", col_type_text(to)))
}

/// `s` without white space at either end.
pub open spec fn trimmed(s: Seq<char>) -> Seq<char> {
    trim_end(trim_start(s))
}

pub fn trim(s: &str) -> (r: String)
    ensures
        r@ == trimmed(s@),
{
    let cs = chars_of(s);
    let (lo, hi): (usize, usize) = trim_bounds(cs.as_slice(), true, true);
    string_range(cs.as_slice(), lo, hi)
}

/// The integer that a text denotes: a numeral in range, or the integer part of the
/// finite real that it denotes.
pub open spec fn text_to_int(env: EnvV, s: Seq<char>) -> Result<Option<i64>, ErrorV> {
    let t = trimmed(s);
    match i64_of(t) {
        Some(n) => Ok(Some(n)),
        None => match settled(known_numeral(env.reals, t)) {
            Err(e) => Err(e),
            Ok(None) => Ok(None),
            Ok(Some(b)) => if magnitude(b) >= INF_BITS {
                Ok(None)
            } else {
                match settled(known_int(env.reals, RealOpV::ToInt(b))) {
                    Ok(n) => Ok(Some(n)),
                    Err(e) => Err(e),
                }
            },
        },
    }
}

pub fn parse_int(env: &Env, s: &str) -> (r: Result<Option<i64>, Error>)
    ensures
        (match text_to_int(env@, s@) {
            Ok(n) => r == Ok::<Option<i64>, Error>(n),
            Err(e) => r is Err && r->Err_0@ == e,
        }),
{
    let t = trim(s);
    let cs = chars_of(t.as_str());
    match parse_i64(cs.as_slice()) {
        Some(n) => Ok(Some(n)),
        None => match env.numeral(t) {
            Err(e) => Err(e),
            Ok(None) => Ok(None),
            Ok(Some(b)) => if magnitude_of(b) >= INF_BITS {
                Ok(None)
            } else {
                match env.integer(RealOp::ToInt(b)) {
                    Ok(n) => Ok(Some(n)),
                    Err(e) => Err(e),
                }
            },
        },
    }
}

pub open spec fn cast_to_int(env: EnvV, v: ValueV) -> Result<ValueV, ErrorV> {
    match v {
        ValueV::Null => Ok(ValueV::Null),
        ValueV::Integer(n) => Ok(ValueV::Integer(n)),
        ValueV::Bool(b) => Ok(
            ValueV::Integer(
                if b {
                    1
                } else {
                    0
                },
            ),
        ),
        ValueV::Real(b) => if is_nan(b) {
            Err(sql_error("no se puede convertir NaN a INTEGER"@))
        } else {
            match settled(known_int(env.reals, RealOpV::ToInt(b))) {
                Ok(n) => Ok(ValueV::Integer(n)),
                Err(e) => Err(e),
            }
        },
        ValueV::Text(s) => match text_to_int(env, s) {
            Ok(Some(n)) => Ok(ValueV::Integer(n)),
            Ok(None) => Err(cast_error(v, ColType::Integer)),
            Err(e) => Err(e),
        },
        ValueV::Blob(_) => Err(cast_error(v, ColType::Integer)),
    }
}

pub open spec fn cast_to_real(env: EnvV, v: ValueV) -> Result<ValueV, ErrorV> {
    match v {
        ValueV::Null => Ok(ValueV::Null),
        ValueV::Real(b) => Ok(ValueV::Real(b)),
        ValueV::Integer(n) => match real_of(env, n) {
            Ok(b) => Ok(ValueV::Real(b)),
            Err(e) => Err(e),
        },
        ValueV::Bool(b) => match real_of(
            env,
            if b {
                1
            } else {
                0
            },
        ) {
            Ok(x) => Ok(ValueV::Real(x)),
            Err(e) => Err(e),
        },
        ValueV::Text(s) => match settled(known_numeral(env.reals, trimmed(s))) {
            Ok(Some(b)) => Ok(ValueV::Real(b)),
            Ok(None) => Err(cast_error(v, ColType::Real)),
            Err(e) => Err(e),
        },
        ValueV::Blob(_) => Err(cast_error(v, ColType::Real)),
    }
}

pub open spec fn cast_to_text(env: EnvV, v: ValueV) -> Result<ValueV, ErrorV> {
    match v {
        ValueV::Null => Ok(ValueV::Null),
        ValueV::Text(s) => Ok(ValueV::Text(s)),
        ValueV::Integer(n) => Ok(ValueV::Text(int_text(n as int))),
        ValueV::Real(b) => match settled(known_text(env.reals, RealOpV::Show(b))) {
            Ok(s) => Ok(ValueV::Text(s)),
            Err(e) => Err(e),
        },
        ValueV::Bool(b) => Ok(
            ValueV::Text(
                if b {
                    "TRUE"@
                } else {
                    "FALSE"@
                },
            ),
        ),
        ValueV::Blob(b) => if valid_utf8(b) {
            Ok(ValueV::Text(decode_utf8(b)))
        } else {
            Err(sql_error("CAST de BLOB no-UTF-8 a TEXT"@))
        },
    }
}

pub open spec fn cast_to_blob(v: ValueV) -> Result<ValueV, ErrorV> {
    match v {
        ValueV::Null => Ok(ValueV::Null),
        ValueV::Blob(b) => Ok(ValueV::Blob(b)),
        ValueV::Text(s) => Ok(ValueV::Blob(encode_utf8(s))),
        _ => Err(cast_error(v, ColType::Blob)),
    }
}

pub open spec fn cast_to_bool(v: ValueV) -> Result<ValueV, ErrorV> {
    match v {
        ValueV::Null => Ok(ValueV::Null),
        ValueV::Bool(b) => Ok(ValueV::Bool(b)),
        ValueV::Integer(n) => Ok(ValueV::Bool(n != 0)),
        ValueV::Real(b) => Ok(ValueV::Bool(rank(b) != 0)),
        ValueV::Text(s) => {
            let t = ascii_lower_all(trimmed(s));
            if t == "true"@ || t == "1"@ {
                Ok(ValueV::Bool(true))
            } else if t == "false"@ || t == "0"@ {
                Ok(ValueV::Bool(false))
            } else {
                Err(cast_error(v, ColType::Boolean))
            }
        },
        ValueV::Blob(_) => Err(cast_error(v, ColType::Boolean)),
    }
}

/// `CAST(v AS to)`: NULL stays NULL; what has no natural conversion is an error.
pub open spec fn cast(env: EnvV, v: ValueV, to: ColType) -> Result<ValueV, ErrorV> {
    match to {
        ColType::Integer => cast_to_int(env, v),
        ColType::Real => cast_to_real(env, v),
        ColType::Text => cast_to_text(env, v),
        ColType::Blob => cast_to_blob(v),
        ColType::Boolean => cast_to_bool(v),
    }
}

fn to_int(env: &Env, v: &Value) -> (r: Result<Value, Error>)
    ensures
        (match cast_to_int(env@, v@) {
            Ok(x) => r is Ok && r->Ok_0@ == x,
            Err(e) => r is Err && r->Err_0@ == e,
        }),
{
    match v {
        Value::Null => Ok(Value::Null),
        Value::Integer(n) => Ok(Value::Integer(*n)),
        Value::Bool(b) => Ok(
            Value::Integer(
                if *b {
                    1
                } else {
                    0
                },
            ),
        ),
        Value::Real(b) => if nan(*b) {
            Err(sql_lit("no se puede convertir NaN a INTEGER"))
        } else {
            match env.integer(RealOp::ToInt(*b)) {
                Ok(n) => Ok(Value::Integer(n)),
                Err(e) => Err(e),
            }
        },
        Value::Text(s) => match parse_int(env, s.as_str()) {
            Ok(Some(n)) => Ok(Value::Integer(n)),
            Ok(None) => Err(cast_err(v, ColType::Integer)),
            Err(e) => Err(e),
        },
        Value::Blob(_) => Err(cast_err(v, ColType::Integer)),
    }
}

fn to_real(env: &Env, v: &Value) -> (r: Result<Value, Error>)
    ensures
        (match cast_to_real(env@, v@) {
            Ok(x) => r is Ok && r->Ok_0@ == x,
            Err(e) => r is Err && r->Err_0@ == e,
        }),
{
    match v {
        Value::Null => Ok(Value::Null),
        Value::Real(b) => Ok(Value::Real(*b)),
        Value::Integer(n) => match env.nearest(*n) {
            Ok(b) => Ok(Value::Real(b)),
            Err(e) => Err(e),
        },
        Value::Bool(b) => match env.nearest(
            if *b {
                1
            } else {
                0
            },
        ) {
            Ok(x) => Ok(Value::Real(x)),
            Err(e) => Err(e),
        },
        Value::Text(s) => match env.numeral(trim(s.as_str())) {
            Ok(Some(b)) => Ok(Value::Real(b)),
            Ok(None) => Err(cast_err(v, ColType::Real)),
            Err(e) => Err(e),
        },
        Value::Blob(_) => Err(cast_err(v, ColType::Real)),
    }
}

fn to_text(env: &Env, v: &Value) -> (r: Result<Value, Error>)
    ensures
        (match cast_to_text(env@, v@) {
            Ok(x) => r is Ok && r->Ok_0@ == x,
            Err(e) => r is Err && r->Err_0@ == e,
        }),
{
    match v {
        Value::Null => Ok(Value::Null),
        Value::Text(s) => Ok(Value::Text(s.clone())),
        Value::Integer(n) => Ok(Value::Text(i64_text(*n))),
        Value::Real(b) => match env.text(RealOp::Show(*b)) {
            Ok(s) => Ok(Value::Text(s)),
            Err(e) => Err(e),
        },
        Value::Bool(b) => Ok(
            Value::Text(
                if *b {
                    "TRUE".to_owned()
                } else {
                    "FALSE".to_owned()
                },
            ),
        ),
        Value::Blob(b) => match text_of_utf8(copy_range(b.as_slice(), 0, b.len())) {
            Some(s) => {
                assert(b@.subrange(0, b@.len() as int) =~= b@);
                Ok(Value::Text(s))
            },
            None => {
                assert(b@.subrange(0, b@.len() as int) =~= b@);
                Err(sql_lit("CAST de BLOB no-UTF-8 a TEXT"))
            },
        },
    }
}

fn to_blob(v: &Value) -> (r: Result<Value, Error>)
    ensures
        (match cast_to_blob(v@) {
            Ok(x) => r is Ok && r->Ok_0@ == x,
            Err(e) => r is Err && r->Err_0@ == e,
        }),
{
    match v {
        Value::Null => Ok(Value::Null),
        Value::Blob(b) => {
            assert(b@.subrange(0, b@.len() as int) =~= b@);
            Ok(Value::Blob(copy_range(b.as_slice(), 0, b.len())))
        },
        Value::Text(s) => {
            let bytes = s.as_str().as_bytes();
            assert(bytes@.subrange(0, bytes@.len() as int) =~= bytes@);
            Ok(Value::Blob(copy_range(bytes, 0, bytes.len())))
        },
        _ => Err(cast_err(v, ColType::Blob)),
    }
}

fn to_bool(v: &Value) -> (r: Result<Value, Error>)
    ensures
        (match cast_to_bool(v@) {
            Ok(x) => r is Ok && r->Ok_0@ == x,
            Err(e) => r is Err && r->Err_0@ == e,
        }),
{
    match v {
        Value::Null => Ok(Value::Null),
        Value::Bool(b) => Ok(Value::Bool(*b)),
        Value::Integer(n) => Ok(Value::Bool(*n != 0)),
        Value::Real(b) => Ok(Value::Bool(magnitude_of(*b) != 0)),
        Value::Text(s) => {
            let t = lower_ascii(trim(s.as_str()).as_str());
            if str_eq(t.as_str(), "true") || str_eq(t.as_str(), "1") {
                Ok(Value::Bool(true))
            } else if str_eq(t.as_str(), "false") || str_eq(t.as_str(), "0") {
                Ok(Value::Bool(false))
            } else {
                Err(cast_err(v, ColType::Boolean))
            }
        },
        Value::Blob(_) => Err(cast_err(v, ColType::Boolean)),
    }
}

pub fn cast_value(env: &Env, v: &Value, to: ColType) -> (r: Result<Value, Error>)
    ensures
        (match cast(env@, v@, to) {
            Ok(x) => r is Ok && r->Ok_0@ == x,
            Err(e) => r is Err && r->Err_0@ == e,
        }),
{
    match to {
        ColType::Integer => to_int(env, v),
        ColType::Real => to_real(env, v),
        ColType::Text => to_text(env, v),
        ColType::Blob => to_blob(v),
        ColType::Boolean => to_bool(v),
    }
}

/// Text of a value as `CAST ... AS TEXT` gives it; `None` where there is none. A
/// missing computation on reals is an error.
pub open spec fn text_of(env: EnvV, v: ValueV) -> Result<Option<Seq<char>>, ErrorV> {
    match cast_to_text(env, v) {
        Ok(ValueV::Text(s)) => Ok(Some(s)),
        Err(ErrorV::NeedsReal(op)) => Err(ErrorV::NeedsReal(op)),
        _ => Ok(None),
    }
}

pub fn value_text(env: &Env, v: &Value) -> (r: Result<Option<String>, Error>)
    ensures
        (match text_of(env@, v@) {
            Ok(Some(s)) => r is Ok && r->Ok_0 is Some && r->Ok_0->0@ == s,
            Ok(None) => r is Ok && r->Ok_0 is None,
            Err(e) => r is Err && r->Err_0@ == e,
        }),
{
    match to_text(env, v) {
        Ok(Value::Text(s)) => Ok(Some(s)),
        Err(Error::NeedsReal(op)) => Err(Error::NeedsReal(op)),
        _ => Ok(None),
    }
}

/// A value as a column of a type stores it; `None` where the type does not fit.
pub open spec fn coerced(env: EnvV, v: ValueV, t: ColType) -> Result<Option<ValueV>, ErrorV> {
    match (t, v) {
        (_, ValueV::Null) => Ok(Some(ValueV::Null)),
        (ColType::Integer, ValueV::Integer(_)) => Ok(Some(v)),
        (ColType::Real, ValueV::Integer(n)) => match real_of(env, n) {
            Ok(b) => Ok(Some(ValueV::Real(b))),
            Err(e) => Err(e),
        },
        (ColType::Real, ValueV::Real(_)) => Ok(Some(v)),
        (ColType::Text, ValueV::Text(_)) => Ok(Some(v)),
        (ColType::Blob, ValueV::Blob(_)) => Ok(Some(v)),
        (ColType::Boolean, ValueV::Bool(_)) => Ok(Some(v)),
        _ => Ok(None),
    }
}

pub fn coerce_value(env: &Env, v: Value, t: ColType) -> (r: Result<Option<Value>, Error>)
    ensures
        (match coerced(env@, v@, t) {
            Ok(Some(x)) => r is Ok && r->Ok_0 is Some && r->Ok_0->0@ == x,
            Ok(None) => r is Ok && r->Ok_0 is None,
            Err(e) => r is Err && r->Err_0@ == e,
        }),
{
    match (t, &v) {
        (_, Value::Null) => Ok(Some(Value::Null)),
        (ColType::Integer, Value::Integer(_)) => Ok(Some(v)),
        (ColType::Real, Value::Integer(n)) => match env.nearest(*n) {
            Ok(b) => Ok(Some(Value::Real(b))),
            Err(e) => Err(e),
        },
        (ColType::Real, Value::Real(_)) => Ok(Some(v)),
        (ColType::Text, Value::Text(_)) => Ok(Some(v)),
        (ColType::Blob, Value::Blob(_)) => Ok(Some(v)),
        (ColType::Boolean, Value::Bool(_)) => Ok(Some(v)),
        _ => Ok(None),
    }
}

} // verus!
