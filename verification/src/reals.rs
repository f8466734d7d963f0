//! Real numbers by their IEEE 754 binary64 bit patterns.
//!
//! Order and classification are decided here on the bits. Every operation that
//! needs floating-point arithmetic, the evaluation of full-text matches, and every
//! draw of a random number is a [`RealOp`] whose outcome the caller supplies in a
//! [`RealTable`]; an operation whose outcome is missing is reported back, so that the
//! caller can supply it and try again.
use vstd::prelude::*;

use crate::record::{bytes_same, clone_row, row_same, Value, ValueV};
#[allow(unused_imports)]
use crate::record::row_view;
use crate::bytes::copy_range;

verus! {

pub const SIGN_BIT: u64 = 0x8000_0000_0000_0000;

/// Bits of the positive infinity.
pub const INF_BITS: u64 = 0x7FF0_0000_0000_0000;

/// The bits without the sign.
pub open spec fn magnitude(b: u64) -> int {
    if b >= SIGN_BIT {
        b - SIGN_BIT
    } else {
        b as int
    }
}

pub open spec fn is_nan(b: u64) -> bool {
    magnitude(b) > INF_BITS
}

/// Position of a number on the real line: both zeros are at zero, and the order
/// of ranks is the order of the numbers.
pub open spec fn rank(b: u64) -> int {
    if b >= SIGN_BIT {
        -magnitude(b)
    } else {
        magnitude(b)
    }
}

/// The outcome of a comparison.
#[derive(Clone, Copy, Debug, PartialEq, Eq, Structural)]
pub enum Order {
    Less,
    Equal,
    Greater,
}

pub open spec fn int_order(a: int, b: int) -> Order {
    if a < b {
        Order::Less
    } else if a == b {
        Order::Equal
    } else {
        Order::Greater
    }
}

pub open spec fn reverse_order(o: Order) -> Order {
    match o {
        Order::Less => Order::Greater,
        Order::Equal => Order::Equal,
        Order::Greater => Order::Less,
    }
}

pub fn reversed(o: Order) -> (r: Order)
    ensures
        r == reverse_order(o),
{
    match o {
        Order::Less => Order::Greater,
        Order::Equal => Order::Equal,
        Order::Greater => Order::Less,
    }
}

/// The order of two reals; nothing is comparable with a NaN.
pub open spec fn real_order(a: u64, b: u64) -> Option<Order> {
    if is_nan(a) || is_nan(b) {
        None
    } else {
        Some(int_order(rank(a), rank(b)))
    }
}

pub fn magnitude_of(b: u64) -> (r: u64)
    ensures
        r == magnitude(b),
{
    if b >= SIGN_BIT {
        b - SIGN_BIT
    } else {
        b
    }
}

pub fn nan(b: u64) -> (r: bool)
    ensures
        r == is_nan(b),
{
    magnitude_of(b) > INF_BITS
}

pub fn order_i64(a: i64, b: i64) -> (r: Order)
    ensures
        r == int_order(a as int, b as int),
{
    if a < b {
        Order::Less
    } else if a == b {
        Order::Equal
    } else {
        Order::Greater
    }
}

fn rank_of(b: u64) -> (r: i64)
    ensures
        r == rank(b),
{
    if b >= SIGN_BIT {
        -((b - SIGN_BIT) as i64)
    } else {
        b as i64
    }
}

pub fn order_reals(a: u64, b: u64) -> (r: Option<Order>)
    ensures
        r == real_order(a, b),
{
    if nan(a) || nan(b) {
        None
    } else {
        Some(order_i64(rank_of(a), rank_of(b)))
    }
}

/// The opposite number: the sign bit flipped.
pub open spec fn negate(b: u64) -> u64 {
    if b >= SIGN_BIT {
        (b - SIGN_BIT) as u64
    } else {
        (b + SIGN_BIT) as u64
    }
}

pub fn negated(b: u64) -> (r: u64)
    ensures
        r == negate(b),
{
    if b >= SIGN_BIT {
        b - SIGN_BIT
    } else {
        b + SIGN_BIT
    }
}

/// Functions of one real.
#[derive(Clone, Copy, Debug, PartialEq, Eq, Structural)]
pub enum Unary {
    Floor,
    Ceil,
    Trunc,
    Sqrt,
    Exp,
    Ln,
    Log10,
    Log2,
    Sin,
    Cos,
    Tan,
    Asin,
    Acos,
    Atan,
    Radians,
    Degrees,
}

/// Functions of two reals.
#[derive(Clone, Copy, Debug, PartialEq, Eq, Structural)]
pub enum Binary {
    Add,
    Sub,
    Mul,
    Div,
    Rem,
    Pow,
    /// The logarithm of the second operand to the base of the first.
    Log,
    Atan2,
}

/// Distances between packed vectors.
#[derive(Clone, Copy, Debug, PartialEq, Eq, Structural)]
pub enum Distance {
    Cosine,
    L2,
    Dot,
}

/// What is asked of the caller: a computation that needs floating-point arithmetic, the match
/// of a row, or a random number.
#[derive(Debug, PartialEq)]
pub enum RealOp {
    /// The real nearest to an integer.
    FromInt(i64),
    /// The integer part, saturated to the range of `i64`.
    ToInt(u64),
    Unary(Unary, u64),
    Binary(Binary, u64, u64),
    /// Rounding to a number of decimal places (0 to 15).
    Round(u64, i64),
    /// Milliseconds since the epoch as a Julian day.
    JulianDay(i64),
    /// The real that a numeral denotes, if it is one.
    Parse(String),
    /// The shortest decimal text with a point or an exponent that reads back as the real:
    /// `1.0`, `0.1`, `1e16`.
    Show(u64),
    /// Decimal text with a fixed number of places.
    Fixed(u64, usize),
    /// Numbers packed as a vector of 32-bit reals, or of quantised bytes.
    Pack(bool, Vec<Value>),
    /// Distance of two packed vectors.
    Distance(Distance, Vec<u8>, Vec<u8>),
    /// Whether a row matches a query of a full-text index.
    Matches(u32, Vec<Value>, String),
    /// The relevance of a row: how often each term of a query occurs in it, how many tokens
    /// it has, in how many documents each term occurs, and how many documents and tokens
    /// there are.
    Rank(Vec<u64>, u64, Vec<u64>, u64, u64),
    /// A random number for a place of the evaluation.
    Draw(Vec<usize>),
}

pub open spec fn places_v(s: Seq<usize>) -> Seq<int> {
    Seq::new(s.len(), |i: int| s[i] as int)
}

pub fn copy_numbers(v: &Vec<u64>) -> (r: Vec<u64>)
    ensures
        r@ == v@,
{
    let mut out: Vec<u64> = Vec::new();
    let n: usize = v.len();
    for i in 0..n
        invariant
            n == v@.len(),
            out@ == v@.take(i as int),
    {
        out.push(v[i]);
        assert(out@ =~= v@.take(i + 1));
    }
    assert(v@.take(n as int) =~= v@);
    out
}

fn numbers_same(a: &Vec<u64>, b: &Vec<u64>) -> (r: bool)
    ensures
        r == (a@ == b@),
{
    let n: usize = a.len();
    if b.len() != n {
        return false;
    }
    for i in 0..n
        invariant
            n == a@.len() == b@.len(),
            forall|k: int| 0 <= k < i ==> a@[k] == b@[k],
    {
        if a[i] != b[i] {
            assert(a@[i as int] != b@[i as int]);
            return false;
        }
    }
    assert(a@ =~= b@);
    true
}

fn copy_place(v: &Vec<usize>) -> (r: Vec<usize>)
    ensures
        r@ == v@,
{
    let mut out: Vec<usize> = Vec::new();
    let n: usize = v.len();
    for i in 0..n
        invariant
            n == v@.len(),
            out@ == v@.take(i as int),
    {
        out.push(v[i]);
        assert(out@ =~= v@.take(i + 1));
    }
    assert(v@.take(n as int) =~= v@);
    out
}

fn place_same(a: &Vec<usize>, b: &Vec<usize>) -> (r: bool)
    ensures
        r == (places_v(a@) == places_v(b@)),
{
    let n: usize = a.len();
    assert(places_v(a@).len() == a@.len() && places_v(b@).len() == b@.len());
    if b.len() != n {
        return false;
    }
    for i in 0..n
        invariant
            n == a@.len() == b@.len(),
            forall|k: int| 0 <= k < i ==> a@[k] == b@[k],
    {
        if a[i] != b[i] {
            assert(places_v(a@)[i as int] != places_v(b@)[i as int]);
            return false;
        }
    }
    assert(places_v(a@) =~= places_v(b@));
    true
}

#[verifier::ext_equal]
pub enum RealOpV {
    FromInt(i64),
    ToInt(u64),
    Unary(Unary, u64),
    Binary(Binary, u64, u64),
    Round(u64, i64),
    JulianDay(i64),
    Parse(Seq<char>),
    Show(u64),
    Fixed(u64, usize),
    Pack(bool, Seq<ValueV>),
    Distance(Distance, Seq<u8>, Seq<u8>),
    Matches(u32, Seq<ValueV>, Seq<char>),
    Rank(Seq<u64>, u64, Seq<u64>, u64, u64),
    Draw(Seq<int>),
}

impl View for RealOp {
    type V = RealOpV;

    open spec fn view(&self) -> RealOpV {
        match self {
            RealOp::FromInt(n) => RealOpV::FromInt(*n),
            RealOp::ToInt(b) => RealOpV::ToInt(*b),
            RealOp::Unary(f, a) => RealOpV::Unary(*f, *a),
            RealOp::Binary(f, a, b) => RealOpV::Binary(*f, *a, *b),
            RealOp::Round(a, d) => RealOpV::Round(*a, *d),
            RealOp::JulianDay(n) => RealOpV::JulianDay(*n),
            RealOp::Parse(s) => RealOpV::Parse(s@),
            RealOp::Show(b) => RealOpV::Show(*b),
            RealOp::Fixed(b, p) => RealOpV::Fixed(*b, *p),
            RealOp::Pack(i, vs) => RealOpV::Pack(*i, row_view(vs@)),
            RealOp::Distance(d, a, b) => RealOpV::Distance(*d, a@, b@),
            RealOp::Matches(i, row, q) => RealOpV::Matches(*i, row_view(row@), q@),
            RealOp::Rank(tf, len, df, n, t) => RealOpV::Rank(tf@, *len, df@, *n, *t),
            RealOp::Draw(p) => RealOpV::Draw(places_v(p@)),
        }
    }
}

impl Clone for RealOp {
    fn clone(&self) -> (r: Self)
        ensures
            r@ == self@,
    {
        match self {
            RealOp::FromInt(n) => RealOp::FromInt(*n),
            RealOp::ToInt(b) => RealOp::ToInt(*b),
            RealOp::Unary(f, a) => RealOp::Unary(*f, *a),
            RealOp::Binary(f, a, b) => RealOp::Binary(*f, *a, *b),
            RealOp::Round(a, d) => RealOp::Round(*a, *d),
            RealOp::JulianDay(n) => RealOp::JulianDay(*n),
            RealOp::Parse(s) => RealOp::Parse(s.clone()),
            RealOp::Show(b) => RealOp::Show(*b),
            RealOp::Fixed(b, p) => RealOp::Fixed(*b, *p),
            RealOp::Pack(i, vs) => RealOp::Pack(*i, clone_row(vs)),
            RealOp::Distance(d, a, b) => {
                assert(a@.subrange(0, a@.len() as int) =~= a@);
                assert(b@.subrange(0, b@.len() as int) =~= b@);
                RealOp::Distance(
                    *d,
                    copy_range(a.as_slice(), 0, a.len()),
                    copy_range(b.as_slice(), 0, b.len()),
                )
            },
            RealOp::Matches(i, row, q) => RealOp::Matches(*i, clone_row(row), q.clone()),
            RealOp::Rank(tf, len, df, n, t) => RealOp::Rank(
                copy_numbers(tf),
                *len,
                copy_numbers(df),
                *n,
                *t,
            ),
            RealOp::Draw(p) => RealOp::Draw(copy_place(p)),
        }
    }
}

fn op_eq(a: &RealOp, b: &RealOp) -> (r: bool)
    ensures
        r == (a@ == b@),
{
    match (a, b) {
        (RealOp::FromInt(x), RealOp::FromInt(y)) => *x == *y,
        (RealOp::ToInt(x), RealOp::ToInt(y)) => *x == *y,
        (RealOp::Unary(f, x), RealOp::Unary(g, y)) => *f == *g && *x == *y,
        (RealOp::Binary(f, x, u), RealOp::Binary(g, y, v)) => *f == *g && *x == *y && *u == *v,
        (RealOp::Round(x, u), RealOp::Round(y, v)) => *x == *y && *u == *v,
        (RealOp::JulianDay(x), RealOp::JulianDay(y)) => *x == *y,
        (RealOp::Parse(x), RealOp::Parse(y)) => *x == *y,
        (RealOp::Show(x), RealOp::Show(y)) => *x == *y,
        (RealOp::Fixed(x, u), RealOp::Fixed(y, v)) => *x == *y && *u == *v,
        (RealOp::Pack(x, u), RealOp::Pack(y, v)) => *x == *y && row_same(u, v),
        (RealOp::Distance(d, x, u), RealOp::Distance(e, y, v)) => *d == *e && bytes_same(x, y)
            && bytes_same(u, v),
        (RealOp::Matches(x, u, p), RealOp::Matches(y, v, q)) => *x == *y && row_same(u, v) && *p
            == *q,
        (RealOp::Rank(a, b, c, d, e), RealOp::Rank(u, v, w, x, y)) => numbers_same(a, u) && *b == *v
            && numbers_same(c, w) && *d == *x && *e == *y,
        (RealOp::Draw(x), RealOp::Draw(y)) => place_same(x, y),
        _ => false,
    }
}

/// What a computation on reals gave.
#[derive(Debug, PartialEq)]
pub enum RealAnswer {
    Bits(u64),
    Int(i64),
    Text(String),
    /// The numeral denotes no real.
    Invalid,
    Bytes(Vec<u8>),
    Flag(bool),
    /// The operation fails with a message.
    Fail(String),
}

#[verifier::ext_equal]
pub enum RealAnswerV {
    Bits(u64),
    Int(i64),
    Text(Seq<char>),
    Invalid,
    Bytes(Seq<u8>),
    Flag(bool),
    Fail(Seq<char>),
}

impl View for RealAnswer {
    type V = RealAnswerV;

    open spec fn view(&self) -> RealAnswerV {
        match self {
            RealAnswer::Bits(b) => RealAnswerV::Bits(*b),
            RealAnswer::Int(n) => RealAnswerV::Int(*n),
            RealAnswer::Text(s) => RealAnswerV::Text(s@),
            RealAnswer::Invalid => RealAnswerV::Invalid,
            RealAnswer::Bytes(b) => RealAnswerV::Bytes(b@),
            RealAnswer::Flag(b) => RealAnswerV::Flag(*b),
            RealAnswer::Fail(s) => RealAnswerV::Fail(s@),
        }
    }
}

/// Outcomes of computations on reals; the first entry of an operation counts.
#[derive(Debug)]
pub struct RealTable {
    pub entries: Vec<(RealOp, RealAnswer)>,
}

pub type RealTableV = Seq<(RealOpV, RealAnswerV)>;

impl View for RealTable {
    type V = RealTableV;

    open spec fn view(&self) -> RealTableV {
        Seq::new(
            self.entries@.len(),
            |i: int| (self.entries@[i].0@, self.entries@[i].1@),
        )
    }
}

/// The outcome recorded for `op`, if there is one.
pub open spec fn answer(t: RealTableV, op: RealOpV) -> Option<RealAnswerV>
    decreases t.len(),
{
    if t.len() == 0 {
        None
    } else if t[0].0 == op {
        Some(t[0].1)
    } else {
        answer(t.drop_first(), op)
    }
}

/// The bits that an operation gave, or the operation where that is not recorded.
pub open spec fn known_bits(t: RealTableV, op: RealOpV) -> Result<u64, RealOpV> {
    match answer(t, op) {
        Some(RealAnswerV::Bits(b)) => Ok(b),
        _ => Err(op),
    }
}

pub open spec fn known_int(t: RealTableV, op: RealOpV) -> Result<i64, RealOpV> {
    match answer(t, op) {
        Some(RealAnswerV::Int(n)) => Ok(n),
        _ => Err(op),
    }
}

pub open spec fn known_text(t: RealTableV, op: RealOpV) -> Result<Seq<char>, RealOpV> {
    match answer(t, op) {
        Some(RealAnswerV::Text(s)) => Ok(s),
        _ => Err(op),
    }
}

/// The real that a numeral denotes, if any.
pub open spec fn known_numeral(t: RealTableV, s: Seq<char>) -> Result<Option<u64>, RealOpV> {
    match answer(t, RealOpV::Parse(s)) {
        Some(RealAnswerV::Bits(b)) => Ok(Some(b)),
        Some(RealAnswerV::Invalid) => Ok(None),
        _ => Err(RealOpV::Parse(s)),
    }
}

/// The distance of two vectors, or the message with which it fails.
pub open spec fn known_distance(t: RealTableV, op: RealOpV) -> Result<Result<u64, Seq<char>>, RealOpV> {
    match answer(t, op) {
        Some(RealAnswerV::Bits(b)) => Ok(Ok(b)),
        Some(RealAnswerV::Fail(s)) => Ok(Err(s)),
        _ => Err(op),
    }
}

pub open spec fn known_bytes(t: RealTableV, op: RealOpV) -> Result<Seq<u8>, RealOpV> {
    match answer(t, op) {
        Some(RealAnswerV::Bytes(b)) => Ok(b),
        _ => Err(op),
    }
}

/// Whether a row matches, or the message with which that fails.
pub open spec fn known_match(t: RealTableV, op: RealOpV) -> Result<Result<bool, Seq<char>>, RealOpV> {
    match answer(t, op) {
        Some(RealAnswerV::Flag(b)) => Ok(Ok(b)),
        Some(RealAnswerV::Fail(s)) => Ok(Err(s)),
        _ => Err(op),
    }
}

impl RealTable {
    pub fn distance(&self, op: RealOp) -> (r: Result<Result<u64, String>, RealOp>)
        ensures
            (match known_distance(self@, op@) {
                Ok(Ok(b)) => r is Ok && r->Ok_0 == Ok::<u64, String>(b),
                Ok(Err(s)) => r is Ok && r->Ok_0 is Err && r->Ok_0->Err_0@ == s,
                Err(o) => r is Err && r->Err_0@ == o,
            }),
    {
        match self.find(&op) {
            Some(RealAnswer::Bits(b)) => Ok(Ok(*b)),
            Some(RealAnswer::Fail(s)) => Ok(Err(s.clone())),
            _ => Err(op),
        }
    }

    pub fn bytes(&self, op: RealOp) -> (r: Result<Vec<u8>, RealOp>)
        ensures
            (match known_bytes(self@, op@) {
                Ok(b) => r is Ok && r->Ok_0@ == b,
                Err(o) => r is Err && r->Err_0@ == o,
            }),
    {
        match self.find(&op) {
            Some(RealAnswer::Bytes(b)) => {
                assert(b@.subrange(0, b@.len() as int) =~= b@);
                Ok(copy_range(b.as_slice(), 0, b.len()))
            },
            _ => Err(op),
        }
    }

    pub fn matched(&self, op: RealOp) -> (r: Result<Result<bool, String>, RealOp>)
        ensures
            (match known_match(self@, op@) {
                Ok(Ok(b)) => r is Ok && r->Ok_0 == Ok::<bool, String>(b),
                Ok(Err(s)) => r is Ok && r->Ok_0 is Err && r->Ok_0->Err_0@ == s,
                Err(o) => r is Err && r->Err_0@ == o,
            }),
    {
        match self.find(&op) {
            Some(RealAnswer::Flag(b)) => Ok(Ok(*b)),
            Some(RealAnswer::Fail(s)) => Ok(Err(s.clone())),
            _ => Err(op),
        }
    }

    pub fn bits(&self, op: RealOp) -> (r: Result<u64, RealOp>)
        ensures
            (match known_bits(self@, op@) {
                Ok(b) => r == Ok::<u64, RealOp>(b),
                Err(o) => r is Err && r->Err_0@ == o,
            }),
    {
        match self.find(&op) {
            Some(RealAnswer::Bits(b)) => Ok(*b),
            _ => Err(op),
        }
    }

    pub fn integer(&self, op: RealOp) -> (r: Result<i64, RealOp>)
        ensures
            (match known_int(self@, op@) {
                Ok(n) => r == Ok::<i64, RealOp>(n),
                Err(o) => r is Err && r->Err_0@ == o,
            }),
    {
        match self.find(&op) {
            Some(RealAnswer::Int(n)) => Ok(*n),
            _ => Err(op),
        }
    }

    pub fn text(&self, op: RealOp) -> (r: Result<String, RealOp>)
        ensures
            (match known_text(self@, op@) {
                Ok(s) => r is Ok && r->Ok_0@ == s,
                Err(o) => r is Err && r->Err_0@ == o,
            }),
    {
        match self.find(&op) {
            Some(RealAnswer::Text(s)) => Ok(s.clone()),
            _ => Err(op),
        }
    }

    pub fn numeral(&self, s: String) -> (r: Result<Option<u64>, RealOp>)
        ensures
            (match known_numeral(self@, s@) {
                Ok(b) => r == Ok::<Option<u64>, RealOp>(b),
                Err(o) => r is Err && r->Err_0@ == o,
            }),
    {
        let op = RealOp::Parse(s);
        match self.find(&op) {
            Some(RealAnswer::Bits(b)) => Ok(Some(*b)),
            Some(RealAnswer::Invalid) => Ok(None),
            _ => Err(op),
        }
    }

    pub fn new() -> (r: RealTable)
        ensures
            r@ == Seq::<(RealOpV, RealAnswerV)>::empty(),
    {
        let r = RealTable { entries: Vec::new() };
        assert(r@ =~= Seq::empty());
        r
    }

    /// Records the outcome of an operation.
    pub fn record(&mut self, op: RealOp, answer: RealAnswer)
        ensures
            final(self)@ == old(self)@.push((op@, answer@)),
    {
        self.entries.push((op, answer));
        assert(self@ =~= old(self)@.push((op@, answer@)));
    }

    fn find(&self, op: &RealOp) -> (r: Option<&RealAnswer>)
        ensures
            (match r {
                Some(a) => answer(self@, op@) == Some(a@),
                None => answer(self@, op@) is None,
            }),
    {
        let mut i: usize = 0;
        assert(self@.skip(0) =~= self@);
        while i < self.entries.len()
            invariant
                i <= self.entries@.len(),
                answer(self@.skip(i as int), op@) == answer(self@, op@),
            decreases self.entries@.len() - i,
        {
            assert(self@.skip(i as int)[0] == self@[i as int]);
            if op_eq(&self.entries[i].0, op) {
                return Some(&self.entries[i].1);
            }
            assert(self@.skip(i as int).drop_first() =~= self@.skip(i + 1));
            i = i + 1;
        }
        None
    }
}

} // verus!
