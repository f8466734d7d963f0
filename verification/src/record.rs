//! Typed values and the encoding of records.
//!
//! ```text
//! record: [ncols varint][tag u8 x ncols][payloads in order]
//! tags:   0 NULL, 1 FALSE, 2 TRUE, 3 INTEGER (zigzag varint),
//!         4 REAL (8 bytes LE), 5 TEXT (varint length + UTF-8), 6 BLOB (varint length + bytes)
//! ```
use vstd::prelude::*;
use vstd::utf8::{decode_utf8, encode_utf8, valid_utf8};

use crate::bytes::{copy_range, push_all, push_be, push_le, read_be, read_le};
#[allow(unused_imports)]
use crate::bytes::{be_bytes, be_value, le_bytes, le_value, lemma_be_bytes_len, lemma_be_order, lemma_be_round_trip, lemma_le_bytes_len, lemma_le_round_trip, lemma_pow256_values, lex_lt};
use crate::error::{Error, ErrorV};
use crate::format::{put_varint, take_varint};
#[allow(unused_imports)]
use crate::format::{varint, varint_at, varint_round_trip};

verus! {

/// Value of a cell. A REAL is held as its binary64 bit pattern.
#[derive(Debug, PartialEq)]
pub enum Value {
    Null,
    Bool(bool),
    Integer(i64),
    Real(u64),
    Text(String),
    Blob(Vec<u8>),
}

#[verifier::ext_equal]
pub enum ValueV {
    Null,
    Bool(bool),
    Integer(i64),
    Real(u64),
    Text(Seq<char>),
    Blob(Seq<u8>),
}

impl View for Value {
    type V = ValueV;

    open spec fn view(&self) -> ValueV {
        match self {
            Value::Null => ValueV::Null,
            Value::Bool(b) => ValueV::Bool(*b),
            Value::Integer(n) => ValueV::Integer(*n),
            Value::Real(b) => ValueV::Real(*b),
            Value::Text(s) => ValueV::Text(s@),
            Value::Blob(b) => ValueV::Blob(b@),
        }
    }
}

impl DeepView for Value {
    type V = ValueV;

    open spec fn deep_view(&self) -> ValueV {
        self@
    }
}

impl Clone for Value {
    fn clone(&self) -> (r: Self)
        ensures
            r@ == self@,
    {
        match self {
            Value::Null => Value::Null,
            Value::Bool(b) => Value::Bool(*b),
            Value::Integer(n) => Value::Integer(*n),
            Value::Real(b) => Value::Real(*b),
            Value::Text(s) => Value::Text(s.clone()),
            Value::Blob(b) => Value::Blob(copy_range(b.as_slice(), 0, b.len())),
        }
    }
}

/// Whether two byte strings are equal.
pub fn bytes_same(a: &Vec<u8>, b: &Vec<u8>) -> (r: bool)
    ensures
        r == (a@ == b@),
{
    if a.len() != b.len() {
        return false;
    }
    let n: usize = a.len();
    for i in 0..n
        invariant
            n == a@.len() == b@.len(),
            forall|k: int| 0 <= k < i ==> a@[k] == b@[k],
    {
        if a[i] != b[i] {
            return false;
        }
    }
    assert(a@ =~= b@);
    true
}

/// Whether two values are the same, REALs by their bits.
pub fn value_same(a: &Value, b: &Value) -> (r: bool)
    ensures
        r == (a@ == b@),
{
    match (a, b) {
        (Value::Null, Value::Null) => true,
        (Value::Bool(x), Value::Bool(y)) => *x == *y,
        (Value::Integer(x), Value::Integer(y)) => *x == *y,
        (Value::Real(x), Value::Real(y)) => *x == *y,
        (Value::Text(x), Value::Text(y)) => *x == *y,
        (Value::Blob(x), Value::Blob(y)) => bytes_same(x, y),
        _ => false,
    }
}

pub open spec fn kind_name_of(v: ValueV) -> Seq<char> {
    match v {
        ValueV::Null => "NULL"@,
        ValueV::Bool(_) => "BOOLEAN"@,
        ValueV::Integer(_) => "INTEGER"@,
        ValueV::Real(_) => "REAL"@,
        ValueV::Text(_) => "TEXT"@,
        ValueV::Blob(_) => "BLOB"@,
    }
}

impl Value {
    /// The SQL name of the type of the value.
    pub fn kind_name(&self) -> (r: &'static str)
        ensures
            r@ == kind_name_of(self@),
    {
        match self {
            Value::Null => "NULL",
            Value::Bool(_) => "BOOLEAN",
            Value::Integer(_) => "INTEGER",
            Value::Real(_) => "REAL",
            Value::Text(_) => "TEXT",
            Value::Blob(_) => "BLOB",
        }
    }
}

/// A value whose text or bytes are borrowed.
#[derive(Clone, Copy, Debug)]
pub enum ValueRef<'a> {
    Null,
    Bool(bool),
    Integer(i64),
    Real(u64),
    Text(&'a str),
    Blob(&'a [u8]),
}

impl<'a> View for ValueRef<'a> {
    type V = ValueV;

    open spec fn view(&self) -> ValueV {
        match self {
            ValueRef::Null => ValueV::Null,
            ValueRef::Bool(b) => ValueV::Bool(*b),
            ValueRef::Integer(n) => ValueV::Integer(*n),
            ValueRef::Real(b) => ValueV::Real(*b),
            ValueRef::Text(s) => ValueV::Text(s@),
            ValueRef::Blob(b) => ValueV::Blob(b@),
        }
    }
}

impl<'a> ValueRef<'a> {
    pub fn of(v: &'a Value) -> (r: ValueRef<'a>)
        ensures
            r@ == v@,
    {
        match v {
            Value::Null => ValueRef::Null,
            Value::Bool(b) => ValueRef::Bool(*b),
            Value::Integer(n) => ValueRef::Integer(*n),
            Value::Real(b) => ValueRef::Real(*b),
            Value::Text(s) => ValueRef::Text(s.as_str()),
            Value::Blob(b) => ValueRef::Blob(b.as_slice()),
        }
    }

    /// An owned copy of the value.
    pub fn to_value(self) -> (r: Value)
        ensures
            r@ == self@,
    {
        match self {
            ValueRef::Null => Value::Null,
            ValueRef::Bool(b) => Value::Bool(b),
            ValueRef::Integer(n) => Value::Integer(n),
            ValueRef::Real(b) => Value::Real(b),
            ValueRef::Text(s) => Value::Text(s.to_owned()),
            ValueRef::Blob(b) => Value::Blob(copy_range(b, 0, b.len())),
        }
    }
}

const TAG_NULL: u8 = 0;

const TAG_FALSE: u8 = 1;

const TAG_TRUE: u8 = 2;

const TAG_INT: u8 = 3;

const TAG_REAL: u8 = 4;

pub const TAG_TEXT: u8 = 5;

const TAG_BLOB: u8 = 6;

/// Signed integers as unsigned ones, small magnitudes first: 0, -1, 1, -2, ...
pub open spec fn zigzag(v: i64) -> u64 {
    if v >= 0 {
        (2 * v) as u64
    } else {
        (-2 * v - 1) as u64
    }
}

pub open spec fn unzigzag(u: u64) -> i64 {
    if u % 2 == 0 {
        (u / 2) as i64
    } else {
        (-((u / 2) as int) - 1) as i64
    }
}

/// Zigzag loses nothing.
pub proof fn zigzag_round_trip(v: i64)
    ensures
        unzigzag(zigzag(v)) == v,
{
}

fn zigzag_of(v: i64) -> (r: u64)
    ensures
        r == zigzag(v),
{
    if v >= 0 {
        2 * (v as u64)
    } else {
        (2 * (-(v as i128)) - 1) as u64
    }
}

fn unzigzag_of(u: u64) -> (r: i64)
    ensures
        r == unzigzag(u),
{
    if u % 2 == 0 {
        (u / 2) as i64
    } else {
        -((u / 2) as i64) - 1
    }
}

/// Type tag of a value in a record.
pub open spec fn tag_of(v: ValueV) -> u8 {
    match v {
        ValueV::Null => 0,
        ValueV::Bool(false) => 1,
        ValueV::Bool(true) => 2,
        ValueV::Integer(_) => 3,
        ValueV::Real(_) => 4,
        ValueV::Text(_) => 5,
        ValueV::Blob(_) => 6,
    }
}

/// Payload of a value in a record.
pub open spec fn payload(v: ValueV) -> Seq<u8> {
    match v {
        ValueV::Null | ValueV::Bool(_) => Seq::empty(),
        ValueV::Integer(n) => varint(zigzag(n) as nat),
        ValueV::Real(b) => le_bytes(b as nat, 8),
        ValueV::Text(s) => varint(encode_utf8(s).len()) + encode_utf8(s),
        ValueV::Blob(b) => varint(b.len()) + b,
    }
}

pub open spec fn tags(vs: Seq<ValueV>) -> Seq<u8> {
    Seq::new(vs.len(), |i: int| tag_of(vs[i]))
}

/// The payloads of a row, one behind the other.
pub open spec fn payloads(vs: Seq<ValueV>) -> Seq<u8>
    decreases vs.len(),
{
    if vs.len() == 0 {
        Seq::empty()
    } else {
        payloads(vs.drop_last()) + payload(vs.last())
    }
}

/// The record of a row.
pub open spec fn record_bytes(vs: Seq<ValueV>) -> Seq<u8> {
    varint(vs.len()) + tags(vs) + payloads(vs)
}

/// The views of a slice of values.
pub open spec fn row_view(vs: Seq<Value>) -> Seq<ValueV> {
    Seq::new(vs.len(), |i: int| vs[i]@)
}

/// The views of rows.
pub open spec fn rows_view(rows: Seq<Vec<Value>>) -> Seq<Seq<ValueV>> {
    Seq::new(rows.len(), |i: int| row_view(rows[i]@))
}

/// Copies of rows.
pub fn clone_rows(v: &Vec<Vec<Value>>) -> (r: Vec<Vec<Value>>)
    ensures
        rows_view(r@) == rows_view(v@),
        r@.len() == v@.len(),
{
    let mut out: Vec<Vec<Value>> = Vec::new();
    let n: usize = v.len();
    for i in 0..n
        invariant
            n == v@.len(),
            out@.len() == i,
            forall|k: int| 0 <= k < i ==> row_view(#[trigger] out@[k]@) == row_view(v@[k]@),
    {
        out.push(clone_row(&v[i]));
    }
    assert(rows_view(out@) =~= rows_view(v@));
    out
}

/// A copy of a row.
pub fn clone_row(v: &Vec<Value>) -> (r: Vec<Value>)
    ensures
        row_view(r@) == row_view(v@),
        r@.len() == v@.len(),
{
    let mut out: Vec<Value> = Vec::new();
    let n: usize = v.len();
    for i in 0..n
        invariant
            n == v@.len(),
            out@.len() == i,
            forall|k: int| 0 <= k < i ==> (#[trigger] out@[k])@ == v@[k]@,
    {
        out.push(v[i].clone());
    }
    assert(row_view(out@) =~= row_view(v@));
    out
}

/// Whether two rows are the same, REALs by their bits.
pub fn row_same(a: &Vec<Value>, b: &Vec<Value>) -> (r: bool)
    ensures
        r == (row_view(a@) == row_view(b@)),
{
    if a.len() != b.len() {
        assert(row_view(a@).len() != row_view(b@).len());
        return false;
    }
    let n: usize = a.len();
    for i in 0..n
        invariant
            n == a@.len() == b@.len(),
            forall|k: int| 0 <= k < i ==> row_view(a@)[k] == row_view(b@)[k],
    {
        let ghost (p, q) = (row_view(a@)[i as int], row_view(b@)[i as int]);
        if !value_same(&a[i], &b[i]) {
            assert(p != q);
            return false;
        }
    }
    assert(row_view(a@) =~= row_view(b@));
    true
}

fn push_payload(out: &mut Vec<u8>, v: ValueRef<'_>)
    ensures
        final(out)@ == old(out)@ + payload(v@),
{
    match v {
        ValueRef::Null | ValueRef::Bool(_) => {
            assert(out@ =~= old(out)@ + payload(v@));
        },
        ValueRef::Integer(n) => put_varint(out, zigzag_of(n)),
        ValueRef::Real(b) => push_le(out, b, 8),
        ValueRef::Text(s) => {
            let bytes = s.as_bytes();
            put_varint(out, bytes.len() as u64);
            push_all(out, bytes);
            assert(out@ =~= old(out)@ + payload(v@));
        },
        ValueRef::Blob(b) => {
            put_varint(out, b.len() as u64);
            push_all(out, b);
            assert(out@ =~= old(out)@ + payload(v@));
        },
    }
}

fn tag_byte(v: &ValueRef<'_>) -> (r: u8)
    ensures
        r == tag_of(v@),
{
    match v {
        ValueRef::Null => TAG_NULL,
        ValueRef::Bool(b) => if *b {
            TAG_TRUE
        } else {
            TAG_FALSE
        },
        ValueRef::Integer(_) => TAG_INT,
        ValueRef::Real(_) => TAG_REAL,
        ValueRef::Text(_) => TAG_TEXT,
        ValueRef::Blob(_) => TAG_BLOB,
    }
}

/// The record of a row.
pub fn encode_values(values: &[Value]) -> (r: Vec<u8>)
    ensures
        r@ == record_bytes(row_view(values@)),
{
    let mut out: Vec<u8> = Vec::new();
    encode_values_into(values, &mut out);
    out
}

/// Like [`encode_values`], into a buffer that is cleared first.
pub fn encode_values_into(values: &[Value], out: &mut Vec<u8>)
    ensures
        final(out)@ == record_bytes(row_view(values@)),
{
    let col = |i: usize| -> (r: Result<ValueRef<'_>, Error>)
        requires
            i < values@.len(),
        ensures
            r is Ok && r->Ok_0@ == values@[i as int]@,
        { Ok(ValueRef::of(&values[i])) };
    let _ = encode_resolved_into(values.len(), col, out);
    proof {
        let row = row_view(values@);
        assert forall|s: Seq<ValueRef<'_>>| #[trigger] gave(col, s) && s.len() == row.len() implies refs_view(s) == row by {
            assert forall|i: int| 0 <= i < s.len() implies (#[trigger] refs_view(s)[i]) == row[i] by {
                assert(call_ensures(col, (i as usize,), Ok::<ValueRef<'_>, Error>(s[i])));
            }
            assert(refs_view(s) =~= row);
        }
    }
}

/// The values that columns were resolved to.
pub open spec fn refs_view(s: Seq<ValueRef<'_>>) -> Seq<ValueV> {
    Seq::new(s.len(), |i: int| s[i]@)
}

/// `col` may resolve the columns from the first on to `s`.
pub open spec fn gave<'a, F: Fn(usize) -> Result<ValueRef<'a>, Error>>(col: F, s: Seq<ValueRef<'a>>) -> bool {
    forall|i: int|
        0 <= i < s.len() ==> call_ensures(col, (i as usize,), Ok::<ValueRef<'a>, Error>(#[trigger] s[i]))
}

/// The record of a row whose column `i` is what `col(i)` gives. Every column is asked for
/// twice, in order: first for the tags, then for the payloads. A column that fails ends the
/// record with its error; the buffer keeps what was written before.
pub fn encode_resolved_into<'a, F: Fn(usize) -> Result<ValueRef<'a>, Error>>(
    ncols: usize,
    col: F,
    out: &mut Vec<u8>,
) -> (r: Result<(), Error>)
    requires
        forall|i: usize| i < ncols ==> #[trigger] call_requires(col, (i,)),
    ensures
        exists|a: Seq<ValueRef<'a>>, b: Seq<ValueRef<'a>>|
            {
                &&& #[trigger] gave(col, a)
                &&& #[trigger] gave(col, b)
                &&& a.len() <= ncols
                &&& final(out)@ == varint(ncols as nat) + tags(refs_view(a)) + payloads(refs_view(b))
                &&& (match r {
                    Ok(_) => a.len() == ncols && b.len() == ncols,
                    Err(e) => {
                        ||| a.len() < ncols && b.len() == 0 && call_ensures(
                            col,
                            (a.len() as usize,),
                            Err::<ValueRef<'a>, Error>(e),
                        )
                        ||| a.len() == ncols && b.len() < ncols && call_ensures(
                            col,
                            (b.len() as usize,),
                            Err::<ValueRef<'a>, Error>(e),
                        )
                    },
                })
            },
{
    out.clear();
    put_varint(out, ncols as u64);
    let ghost head = varint(ncols as nat);
    let ghost mut a: Seq<ValueRef<'a>> = Seq::empty();
    let ghost mut b: Seq<ValueRef<'a>> = Seq::empty();
    assert(payloads(refs_view(b)) =~= Seq::<u8>::empty());
    let mut i: usize = 0;
    assert(out@ =~= head + tags(refs_view(a)));
    while i < ncols
        invariant
            i <= ncols,
            i == a.len(),
            forall|k: usize| k < ncols ==> #[trigger] call_requires(col, (k,)),
            gave(col, a),
            head == varint(ncols as nat),
            out@ == head + tags(refs_view(a)),
            b == Seq::<ValueRef<'a>>::empty(),
            payloads(refs_view(b)) == Seq::<u8>::empty(),
        decreases ncols - i,
    {
        match col(i) {
            Ok(v) => {
                out.push(tag_byte(&v));
                proof {
                    let next = a.push(v);
                    assert(refs_view(next) =~= refs_view(a).push(v@));
                    assert(out@ =~= head + tags(refs_view(next)));
                    a = next;
                }
            },
            Err(e) => {
                assert(out@ =~= head + tags(refs_view(a)) + payloads(refs_view(b)));
                assert(gave(col, a) && gave(col, b));
                return Err(e);
            },
        }
        i = i + 1;
    }
    let ghost front = head + tags(refs_view(a));
    let mut j: usize = 0;
    assert(out@ =~= front + payloads(refs_view(b)));
    while j < ncols
        invariant
            j <= ncols,
            j == b.len(),
            a.len() == ncols,
            forall|k: usize| k < ncols ==> #[trigger] call_requires(col, (k,)),
            gave(col, a),
            gave(col, b),
            front == varint(ncols as nat) + tags(refs_view(a)),
            out@ == front + payloads(refs_view(b)),
        decreases ncols - j,
    {
        match col(j) {
            Ok(v) => {
                push_payload(out, v);
                proof {
                    let next = b.push(v);
                    assert(refs_view(next).drop_last() =~= refs_view(b));
                    assert(refs_view(next).last() == v@);
                    assert(out@ =~= front + payloads(refs_view(next)));
                    b = next;
                }
            },
            Err(e) => {
                assert(gave(col, a) && gave(col, b));
                return Err(e);
            },
        }
        j = j + 1;
    }
    assert(gave(col, a) && gave(col, b));
    Ok(())
}

// --- decoding ---

pub open spec fn corrupt(reason: Seq<char>) -> ErrorV {
    ErrorV::CorruptRecord(reason)
}

fn bad(reason: &str) -> (r: Error)
    ensures
        r@ == corrupt(reason@),
{
    Error::CorruptRecord(reason.to_owned())
}

/// The length-prefixed bytes at `pos` and the position behind them: the length
/// prefix may be missing (`no_len`) or the bytes cut short (`short`).
pub open spec fn counted_at(buf: Seq<u8>, pos: int, no_len: Seq<char>, short: Seq<char>) -> Result<
    (Seq<u8>, int),
    ErrorV,
> {
    match varint_at(buf, pos, 0) {
        (None, _) => Err(corrupt(no_len)),
        (Some(v), p) => {
            let len = v;
            if len > buf.len() - p {
                Err(corrupt(short))
            } else {
                Ok((buf.subrange(p, p + len), p + len))
            }
        },
    }
}

/// The value that the payload at `pos` denotes under a tag, and the position
/// behind it.
pub open spec fn payload_at(buf: Seq<u8>, pos: int, tag: u8) -> Result<(ValueV, int), ErrorV> {
    if tag == 0 {
        Ok((ValueV::Null, pos))
    } else if tag == 1 {
        Ok((ValueV::Bool(false), pos))
    } else if tag == 2 {
        Ok((ValueV::Bool(true), pos))
    } else if tag == 3 {
        match varint_at(buf, pos, 0) {
            (None, _) => Err(corrupt("entero truncado"@)),
            (Some(v), p) => Ok(
                (ValueV::Integer(unzigzag(v as u64)), p),
            ),
        }
    } else if tag == 4 {
        if buf.len() - pos < 8 {
            Err(corrupt("real truncado"@))
        } else {
            Ok((ValueV::Real(le_value(buf.subrange(pos, pos + 8)) as u64), pos + 8))
        }
    } else if tag == 5 {
        match counted_at(buf, pos, "longitud de texto truncada"@, "texto truncado"@) {
            Err(e) => Err(e),
            Ok((b, p)) => if valid_utf8(b) {
                Ok((ValueV::Text(decode_utf8(b)), p))
            } else {
                Err(corrupt("texto no UTF-8"@))
            },
        }
    } else if tag == 6 {
        match counted_at(buf, pos, "longitud de blob truncada"@, "blob truncado"@) {
            Err(e) => Err(e),
            Ok((b, p)) => Ok((ValueV::Blob(b), p)),
        }
    } else {
        Err(corrupt("tag de valor desconocido"@))
    }
}

/// The position behind the payload at `pos`, without looking into it.
pub open spec fn skip_at(buf: Seq<u8>, pos: int, tag: u8) -> Result<int, ErrorV> {
    if tag == 0 || tag == 1 || tag == 2 {
        Ok(pos)
    } else if tag == 3 {
        match varint_at(buf, pos, 0) {
            (None, _) => Err(corrupt("entero truncado"@)),
            (Some(_), p) => Ok(p),
        }
    } else if tag == 4 {
        if buf.len() - pos < 8 {
            Err(corrupt("real truncado"@))
        } else {
            Ok(pos + 8)
        }
    } else if tag == 5 || tag == 6 {
        match counted_at(buf, pos, "longitud truncada"@, "payload truncado"@) {
            Err(e) => Err(e),
            Ok((_, p)) => Ok(p),
        }
    } else {
        Err(corrupt("tag de valor desconocido"@))
    }
}

/// The values of the columns from `i` on, whose payloads start at `pos`, and the
/// position behind the last.
pub open spec fn values_from(buf: Seq<u8>, ts: Seq<u8>, i: nat, pos: int) -> Result<
    (Seq<ValueV>, int),
    ErrorV,
>
    decreases ts.len() - i,
{
    if i >= ts.len() {
        Ok((Seq::empty(), pos))
    } else {
        match payload_at(buf, pos, ts[i as int]) {
            Err(e) => Err(e),
            Ok((v, p)) => match values_from(buf, ts, i + 1, p) {
                Err(e) => Err(e),
                Ok((vs, q)) => Ok((seq![v] + vs, q)),
            },
        }
    }
}

/// The tags of a record and the position of its first payload.
pub open spec fn head_at(buf: Seq<u8>) -> Result<(Seq<u8>, int), ErrorV> {
    match varint_at(buf, 0, 0) {
        (None, _) => Err(corrupt("cabecera de registro truncada"@)),
        (Some(v), p) => {
            let n = v;
            if n > buf.len() - p {
                Err(corrupt("tags truncados"@))
            } else {
                Ok((buf.subrange(p, p + n), p + n))
            }
        },
    }
}

/// What a record denotes.
pub open spec fn decoded(buf: Seq<u8>) -> Result<Seq<ValueV>, ErrorV> {
    match head_at(buf) {
        Err(e) => Err(e),
        Ok((ts, pos)) => match values_from(buf, ts, 0, pos) {
            Err(e) => Err(e),
            Ok((vs, q)) => if q == buf.len() {
                Ok(vs)
            } else {
                Err(corrupt("bytes sobrantes tras el registro"@))
            },
        },
    }
}

/// A varint read leaves the position inside the buffer.
proof fn lemma_varint_pos(buf: Seq<u8>, pos: int, k: nat)
    requires
        0 <= pos <= buf.len(),
    ensures
        pos <= varint_at(buf, pos, k).1 <= buf.len(),
    decreases 10 - k,
{
    if k < 9 && pos < buf.len() {
        lemma_varint_pos(buf, pos + 1, k + 1);
    }
}

proof fn lemma_payload_pos(buf: Seq<u8>, pos: int, tag: u8)
    requires
        0 <= pos <= buf.len(),
    ensures
        payload_at(buf, pos, tag) is Ok ==> pos <= payload_at(buf, pos, tag)->Ok_0.1 <= buf.len(),
        skip_at(buf, pos, tag) is Ok ==> pos <= skip_at(buf, pos, tag)->Ok_0 <= buf.len(),
{
    lemma_varint_pos(buf, pos, 0);
}

/// `String::from_utf8`: the text that the bytes encode, where they are valid UTF-8.
#[verifier::external_body]
pub(crate) fn text_of_utf8(bytes: Vec<u8>) -> (r: Option<String>)
    ensures
        (match r {
            Some(s) => valid_utf8(bytes@) && s@ == decode_utf8(bytes@),
            None => !valid_utf8(bytes@),
        }),
{
    match String::from_utf8(bytes) {
        Ok(s) => Some(s),
        Err(_) => None,
    }
}

fn take_counted(buf: &[u8], pos: &mut usize, no_len: &str, short: &str) -> (r: Result<
    (usize, usize),
    Error,
>)
    requires
        *old(pos) <= buf@.len(),
    ensures
        (match counted_at(buf@, *old(pos) as int, no_len@, short@) {
            Err(e) => r is Err && r->Err_0@ == e,
            Ok((b, p)) => r is Ok && *old(pos) <= r->Ok_0.0 <= r->Ok_0.1 <= buf@.len() && buf@.subrange(
                r->Ok_0.0 as int,
                r->Ok_0.1 as int,
            ) == b && r->Ok_0.1 == p && *final(pos) == p,
        }),
{
    proof {
        lemma_varint_pos(buf@, *pos as int, 0);
    }
    match take_varint(buf, pos) {
        None => Err(bad(no_len)),
        Some(len) => {
            let lo: usize = *pos;
            if len > (buf.len() - lo) as u64 {
                return Err(bad(short));
            }
            let hi: usize = lo + len as usize;
            *pos = hi;
            Ok((lo, hi))
        },
    }
}

/// Decodes the payload of a tag and advances `pos` behind it.
fn decode_payload(buf: &[u8], pos: &mut usize, tag: u8) -> (r: Result<Value, Error>)
    requires
        *old(pos) <= buf@.len(),
    ensures
        (match payload_at(buf@, *old(pos) as int, tag) {
            Err(e) => r is Err && r->Err_0@ == e,
            Ok((v, p)) => r is Ok && r->Ok_0@ == v && *final(pos) == p,
        }),
{
    if tag == TAG_NULL {
        Ok(Value::Null)
    } else if tag == TAG_FALSE {
        Ok(Value::Bool(false))
    } else if tag == TAG_TRUE {
        Ok(Value::Bool(true))
    } else if tag == TAG_INT {
        match take_varint(buf, pos) {
            None => Err(bad("entero truncado")),
            Some(u) => Ok(Value::Integer(unzigzag_of(u))),
        }
    } else if tag == TAG_REAL {
        if buf.len() - *pos < 8 {
            Err(bad("real truncado"))
        } else {
            let b: u64 = read_le(buf, *pos, 8);
            *pos = *pos + 8;
            Ok(Value::Real(b))
        }
    } else if tag == TAG_TEXT {
        match take_counted(buf, pos, "longitud de texto truncada", "texto truncado") {
            Err(e) => Err(e),
            Ok((lo, hi)) => match text_of_utf8(copy_range(buf, lo, hi)) {
                Some(s) => Ok(Value::Text(s)),
                None => Err(bad("texto no UTF-8")),
            },
        }
    } else if tag == TAG_BLOB {
        match take_counted(buf, pos, "longitud de blob truncada", "blob truncado") {
            Err(e) => Err(e),
            Ok((lo, hi)) => Ok(Value::Blob(copy_range(buf, lo, hi))),
        }
    } else {
        Err(bad("tag de valor desconocido"))
    }
}

/// Skips the payload of a tag.
fn skip_payload(buf: &[u8], pos: &mut usize, tag: u8) -> (r: Result<(), Error>)
    requires
        *old(pos) <= buf@.len(),
    ensures
        (match skip_at(buf@, *old(pos) as int, tag) {
            Err(e) => r is Err && r->Err_0@ == e,
            Ok(p) => r is Ok && *final(pos) == p,
        }),
{
    if tag == TAG_NULL || tag == TAG_FALSE || tag == TAG_TRUE {
        Ok(())
    } else if tag == TAG_INT {
        match take_varint(buf, pos) {
            None => Err(bad("entero truncado")),
            Some(_) => Ok(()),
        }
    } else if tag == TAG_REAL {
        if buf.len() - *pos < 8 {
            Err(bad("real truncado"))
        } else {
            *pos = *pos + 8;
            Ok(())
        }
    } else if tag == TAG_TEXT || tag == TAG_BLOB {
        match take_counted(buf, pos, "longitud truncada", "payload truncado") {
            Err(e) => Err(e),
            Ok(_) => Ok(()),
        }
    } else {
        Err(bad("tag de valor desconocido"))
    }
}

/// Where the tags of a record are: first, and behind the last.
fn take_head(buf: &[u8]) -> (r: Result<(usize, usize), Error>)
    ensures
        (match head_at(buf@) {
            Err(e) => r is Err && r->Err_0@ == e,
            Ok((ts, p)) => r is Ok && r->Ok_0.0 <= r->Ok_0.1 <= buf@.len() && buf@.subrange(
                r->Ok_0.0 as int,
                r->Ok_0.1 as int,
            ) == ts && r->Ok_0.1 == p,
        }),
{
    let mut pos: usize = 0;
    proof {
        lemma_varint_pos(buf@, 0, 0);
    }
    match take_varint(buf, &mut pos) {
        None => Err(bad("cabecera de registro truncada")),
        Some(n) => {
            if n > (buf.len() - pos) as u64 {
                return Err(bad("tags truncados"));
            }
            Ok((pos, pos + n as usize))
        },
    }
}

/// The row that a record denotes.
#[verifier::loop_isolation(false)]
pub fn decode_values(buf: &[u8]) -> (r: Result<Vec<Value>, Error>)
    ensures
        (match decoded(buf@) {
            Err(e) => r is Err && r->Err_0@ == e,
            Ok(vs) => r is Ok && row_view(r->Ok_0@) == vs,
        }),
{
    let (lo, hi): (usize, usize) = match take_head(buf) {
        Err(e) => {
            return Err(e);
        },
        Ok(x) => x,
    };
    let ghost ts = buf@.subrange(lo as int, hi as int);
    let mut pos: usize = hi;
    let mut values: Vec<Value> = Vec::new();
    let mut i: usize = lo;
    let ghost whole = values_from(buf@, ts, 0, hi as int);
    assert(whole is Ok ==> row_view(values@) + whole->Ok_0.0 =~= whole->Ok_0.0);
    while i < hi
        invariant
            lo <= i <= hi <= buf@.len(),
            ts == buf@.subrange(lo as int, hi as int),
            pos <= buf@.len(),
            (match values_from(buf@, ts, (i - lo) as nat, pos as int) {
                Err(e) => whole == Err::<(Seq<ValueV>, int), ErrorV>(e),
                Ok((vs, q)) => whole == Ok::<(Seq<ValueV>, int), ErrorV>(
                    (row_view(values@) + vs, q),
                ),
            }),
        decreases hi - i,
    {
        proof {
            lemma_payload_pos(buf@, pos as int, ts[(i - lo) as int]);
        }
        let ghost before = values@;
        let v = match decode_payload(buf, &mut pos, buf[i]) {
            Err(e) => {
                return Err(e);
            },
            Ok(v) => v,
        };
        values.push(v);
        proof {
            assert(row_view(values@) =~= row_view(before).push(v@));
            let rest = values_from(buf@, ts, (i - lo + 1) as nat, pos as int);
            if rest is Ok {
                assert(row_view(before) + (seq![v@] + rest->Ok_0.0) =~= row_view(values@)
                    + rest->Ok_0.0);
            }
        }
        i = i + 1;
    }
    assert(row_view(values@) + Seq::<ValueV>::empty() =~= row_view(values@));
    if pos != buf.len() {
        return Err(bad("bytes sobrantes tras el registro"));
    }
    Ok(values)
}

// --- single columns ---

/// The position behind the first `n` payloads.
pub open spec fn skip_many(buf: Seq<u8>, ts: Seq<u8>, i: nat, n: nat, pos: int) -> Result<int, ErrorV>
    decreases n - i,
{
    if i >= n {
        Ok(pos)
    } else {
        match skip_at(buf, pos, ts[i as int]) {
            Err(e) => Err(e),
            Ok(p) => skip_many(buf, ts, i + 1, n, p),
        }
    }
}

/// The bytes of column `col` where it is a BLOB.
pub open spec fn blob_column(buf: Seq<u8>, col: nat) -> Result<Option<Seq<u8>>, ErrorV> {
    match varint_at(buf, 0, 0) {
        (None, _) => Err(corrupt("cabecera de registro truncada"@)),
        (Some(v), _) => if col >= v {
            Ok(None)
        } else {
            match head_at(buf) {
                Err(e) => Err(e),
                Ok((ts, pos)) => match skip_many(buf, ts, 0, col, pos) {
                    Err(e) => Err(e),
                    Ok(p) => if ts[col as int] != 6 {
                        Ok(None)
                    } else {
                        match counted_at(buf, p, "longitud de blob truncada"@, "blob truncado"@) {
                            Err(e) => Err(e),
                            Ok((b, _)) => Ok(Some(b)),
                        }
                    },
                },
            }
        },
    }
}

/// Borrowed bytes of column `col` where it is a BLOB; `None` where it is another
/// value or lies behind the record.
#[verifier::loop_isolation(false)]
pub fn col_blob_bytes(buf: &[u8], col: usize) -> (r: Result<Option<&[u8]>, Error>)
    ensures
        (match blob_column(buf@, col as nat) {
            Err(e) => r is Err && r->Err_0@ == e,
            Ok(None) => r is Ok && r->Ok_0 is None,
            Ok(Some(b)) => r is Ok && r->Ok_0 is Some && r->Ok_0->0@ == b,
        }),
{
    let mut at: usize = 0;
    proof {
        lemma_varint_pos(buf@, 0, 0);
    }
    match take_varint(buf, &mut at) {
        None => {
            return Err(bad("cabecera de registro truncada"));
        },
        Some(n) => {
            if col as u64 >= n {
                return Ok(None);
            }
        },
    }
    let (lo, hi): (usize, usize) = match take_head(buf) {
        Err(e) => {
            return Err(e);
        },
        Ok(x) => x,
    };
    let ghost ts = buf@.subrange(lo as int, hi as int);
    assert(ts.len() == hi - lo);
    let mut pos: usize = hi;
    let mut i: usize = 0;
    while i < col
        invariant
            i <= col,
            col < hi - lo,
            lo <= hi <= buf@.len(),
            ts == buf@.subrange(lo as int, hi as int),
            pos <= buf@.len(),
            skip_many(buf@, ts, 0, col as nat, hi as int) == skip_many(
                buf@,
                ts,
                i as nat,
                col as nat,
                pos as int,
            ),
        decreases col - i,
    {
        proof {
            lemma_payload_pos(buf@, pos as int, ts[i as int]);
        }
        match skip_payload(buf, &mut pos, buf[lo + i]) {
            Err(e) => {
                return Err(e);
            },
            Ok(_) => {},
        }
        i = i + 1;
    }
    if buf[lo + col] != TAG_BLOB {
        return Ok(None);
    }
    match take_counted(buf, &mut pos, "longitud de blob truncada", "blob truncado") {
        Err(e) => Err(e),
        Ok((a, b)) => Ok(Some(vstd::slice::slice_subrange(buf, a, b))),
    }
}

/// The requested columns from column `i` on, `w` of them having been taken.
pub open spec fn columns_from(
    buf: Seq<u8>,
    ts: Seq<u8>,
    wanted: Seq<usize>,
    i: nat,
    w: nat,
    pos: int,
) -> Result<Seq<Option<ValueV>>, ErrorV>
    decreases ts.len() - i,
{
    if w >= wanted.len() {
        Ok(Seq::empty())
    } else if i >= ts.len() {
        Ok(Seq::new((wanted.len() - w) as nat, |k: int| None))
    } else if wanted[w as int] == i {
        match payload_at(buf, pos, ts[i as int]) {
            Err(e) => Err(e),
            Ok((v, p)) => match columns_from(buf, ts, wanted, i + 1, w + 1, p) {
                Err(e) => Err(e),
                Ok(rest) => Ok(seq![Some(v)] + rest),
            },
        }
    } else {
        match skip_at(buf, pos, ts[i as int]) {
            Err(e) => Err(e),
            Ok(p) => columns_from(buf, ts, wanted, i + 1, w, p),
        }
    }
}

/// The requested columns of a record; `None` for those behind its end.
pub open spec fn columns_of(buf: Seq<u8>, wanted: Seq<usize>) -> Result<Seq<Option<ValueV>>, ErrorV> {
    match head_at(buf) {
        Err(e) => Err(e),
        Ok((ts, pos)) => columns_from(buf, ts, wanted, 0, 0, pos),
    }
}

pub open spec fn options_view(vs: Seq<Option<Value>>) -> Seq<Option<ValueV>> {
    Seq::new(
        vs.len(),
        |i: int|
            match vs[i] {
                Some(v) => Some(v@),
                None => None,
            },
    )
}

/// Decodes only the columns `wanted` (strictly increasing), in one pass that stops
/// behind the last of them.
#[verifier::loop_isolation(false)]
pub fn decode_cols_sorted(buf: &[u8], wanted: &[usize], out: &mut Vec<Option<Value>>) -> (r: Result<
    (),
    Error,
>)
    ensures
        (match columns_of(buf@, wanted@) {
            Err(e) => r is Err && r->Err_0@ == e,
            Ok(vs) => r is Ok && options_view(final(out)@) == vs,
        }),
{
    out.clear();
    let (lo, hi): (usize, usize) = match take_head(buf) {
        Err(e) => {
            return Err(e);
        },
        Ok(x) => x,
    };
    let ghost ts = buf@.subrange(lo as int, hi as int);
    let mut pos: usize = hi;
    let mut w: usize = 0;
    let mut i: usize = 0;
    let ghost whole = columns_from(buf@, ts, wanted@, 0, 0, hi as int);
    assert(whole is Ok ==> options_view(out@) + whole->Ok_0 =~= whole->Ok_0);
    while i < hi - lo && w < wanted.len()
        invariant
            0 <= i <= hi - lo,
            lo <= hi <= buf@.len(),
            w <= wanted@.len(),
            ts == buf@.subrange(lo as int, hi as int),
            pos <= buf@.len(),
            (match columns_from(buf@, ts, wanted@, i as nat, w as nat, pos as int) {
                Err(e) => whole == Err::<Seq<Option<ValueV>>, ErrorV>(e),
                Ok(rest) => whole == Ok::<Seq<Option<ValueV>>, ErrorV>(options_view(out@) + rest),
            }),
        decreases hi - lo - i,
    {
        proof {
            lemma_payload_pos(buf@, pos as int, ts[i as int]);
        }
        if wanted[w] == i {
            let ghost before = out@;
            let v = match decode_payload(buf, &mut pos, buf[lo + i]) {
                Err(e) => {
                    return Err(e);
                },
                Ok(v) => v,
            };
            out.push(Some(v));
            w = w + 1;
            proof {
                assert(options_view(out@) =~= options_view(before).push(Some(v@)));
                let rest = columns_from(buf@, ts, wanted@, (i + 1) as nat, w as nat, pos as int);
                if rest is Ok {
                    assert(options_view(before) + (seq![Some(v@)] + rest->Ok_0) =~= options_view(
                        out@,
                    ) + rest->Ok_0);
                }
            }
        } else {
            match skip_payload(buf, &mut pos, buf[lo + i]) {
                Err(e) => {
                    return Err(e);
                },
                Ok(_) => {},
            }
        }
        i = i + 1;
    }
    let ghost mid = options_view(out@);
    let ghost w0 = w;
    assert(columns_from(buf@, ts, wanted@, i as nat, w as nat, pos as int) is Ok);
    while w < wanted.len()
        invariant
            w0 <= w <= wanted@.len(),
            options_view(out@) == mid + Seq::new((w - w0) as nat, |k: int| None::<ValueV>),
        decreases wanted@.len() - w,
    {
        let ghost before = out@;
        out.push(None);
        assert(options_view(out@) =~= options_view(before).push(None));
        assert(options_view(out@) =~= mid + Seq::new((w + 1 - w0) as nat, |k: int| None::<ValueV>));
        w = w + 1;
    }
    proof {
        assert(options_view(out@) =~= mid + Seq::new(
            (wanted@.len() - w0) as nat,
            |k: int| None::<ValueV>,
        ));
    }
    Ok(())
}

// --- laws of the record format ---

/// A row whose texts and blobs have lengths that a machine can hold.
pub open spec fn encodable(vs: Seq<ValueV>) -> bool {
    &&& vs.len() <= u64::MAX
    &&& forall|i: int|
        0 <= i < vs.len() ==> (match #[trigger] vs[i] {
            ValueV::Text(s) => encode_utf8(s).len() <= u64::MAX,
            ValueV::Blob(b) => b.len() <= u64::MAX,
            _ => true,
        })
}

/// Reading counted bytes where they were written gives them back.
proof fn lemma_counted_round_trip(
    before: Seq<u8>,
    b: Seq<u8>,
    after: Seq<u8>,
    no_len: Seq<char>,
    short: Seq<char>,
)
    requires
        b.len() <= u64::MAX,
    ensures
        counted_at(before + (varint(b.len()) + b) + after, before.len() as int, no_len, short)
            == Ok::<_, ErrorV>((b, (before.len() + varint(b.len()).len() + b.len()) as int)),
{
    let head = varint(b.len());
    let buf = before + (head + b) + after;
    varint_round_trip(before, b.len() as u64, b + after);
    assert(before + head + (b + after) =~= buf);
    let p = (before.len() + head.len()) as int;
    assert(buf.subrange(p, p + b.len()) =~= b);
}

/// Decoding one payload where it was written gives the value back.
proof fn lemma_payload_round_trip(before: Seq<u8>, v: ValueV, after: Seq<u8>)
    requires
        encodable(seq![v]),
    ensures
        payload_at(before + payload(v) + after, before.len() as int, tag_of(v)) == Ok::<_, ErrorV>(
            (v, (before.len() + payload(v).len()) as int),
        ),
{
    let buf = before + payload(v) + after;
    let vs = seq![v];
    assert(vs[0] == v);
    match v {
        ValueV::Integer(n) => {
            varint_round_trip(before, zigzag(n), after);
            zigzag_round_trip(n);
        },
        ValueV::Real(b) => {
            lemma_le_bytes_len(b as nat, 8);
            lemma_pow256_values();
            lemma_le_round_trip(b as nat, 8);
            let p = before.len() as int;
            assert(buf.subrange(p, p + 8) =~= le_bytes(b as nat, 8));
        },
        ValueV::Text(s) => {
            let bytes = encode_utf8(s);
            lemma_counted_round_trip(
                before,
                bytes,
                after,
                "longitud de texto truncada"@,
                "texto truncado"@,
            );
            vstd::utf8::encode_utf8_valid_utf8(s);
            vstd::utf8::encode_utf8_decode_utf8(s);
        },
        ValueV::Blob(b) => {
            lemma_counted_round_trip(
                before,
                b,
                after,
                "longitud de blob truncada"@,
                "blob truncado"@,
            );
        },
        _ => {},
    }
}

/// The payloads from column `i` on.
proof fn lemma_payloads_split(vs: Seq<ValueV>, i: int)
    requires
        0 <= i < vs.len(),
    ensures
        payloads(vs.take(i + 1)) == payloads(vs.take(i)) + payload(vs[i]),
{
    assert(vs.take(i + 1).drop_last() =~= vs.take(i));
}

proof fn lemma_payloads_prefix(vs: Seq<ValueV>, i: int)
    requires
        0 <= i <= vs.len(),
    ensures
        payloads(vs.take(i)).is_prefix_of(payloads(vs)),
    decreases vs.len() - i,
{
    if i < vs.len() {
        lemma_payloads_prefix(vs, (i + 1) as int);
        lemma_payloads_split(vs, i);
        let (a, b, c) = (payloads(vs.take(i)), payloads(vs.take(i + 1)), payloads(vs));
        assert(a =~= c.subrange(0, a.len() as int)) by {
            assert(b =~= c.subrange(0, b.len() as int));
        }
    } else {
        assert(vs.take(i) =~= vs);
    }
}

proof fn lemma_values_round_trip(head: Seq<u8>, vs: Seq<ValueV>, i: nat)
    requires
        encodable(vs),
        i <= vs.len(),
    ensures
        values_from(
            head + payloads(vs),
            tags(vs),
            i,
            (head.len() + payloads(vs.take(i as int)).len()) as int,
        ) == Ok::<_, ErrorV>(
            (vs.skip(i as int), (head.len() + payloads(vs).len()) as int),
        ),
    decreases vs.len() - i,
{
    let buf = head + payloads(vs);
    let pos = (head.len() + payloads(vs.take(i as int)).len()) as int;
    if i == vs.len() {
        assert(vs.take(i as int) =~= vs);
        assert(vs.skip(i as int) =~= Seq::empty());
    } else {
        let v = vs[i as int];
        lemma_payloads_split(vs, i as int);
        lemma_payloads_prefix(vs, (i + 1) as int);
        let done = payloads(vs.take(i as int));
        let next = payloads(vs.take((i + 1) as int));
        let after = payloads(vs).skip(next.len() as int);
        assert(payloads(vs) =~= next + after) by {
            assert(next =~= payloads(vs).subrange(0, next.len() as int));
        }
        assert(buf =~= (head + done) + payload(v) + after);
        assert(encodable(seq![v]));
        lemma_payload_round_trip(head + done, v, after);
        lemma_values_round_trip(head, vs, i + 1);
        assert(vs.skip(i as int) =~= seq![v] + vs.skip((i + 1) as int));
    }
}

/// Encoding loses nothing: decoding the record of a row gives the row.
#[verifier::spinoff_prover]
#[verifier::rlimit(60)]
pub proof fn record_round_trip(vs: Seq<ValueV>)
    requires
        encodable(vs),
    ensures
        decoded(record_bytes(vs)) == Ok::<_, ErrorV>(vs),
{
    let buf = record_bytes(vs);
    let n = vs.len();
    varint_round_trip(Seq::empty(), n as u64, tags(vs) + payloads(vs));
    assert(Seq::<u8>::empty() + varint(n) + (tags(vs) + payloads(vs)) =~= buf);
    let head = varint(n) + tags(vs);
    let p = varint(n).len() as int;
    assert(buf.subrange(p, p + n) =~= tags(vs));
    assert(buf =~= head + payloads(vs));
    assert(payloads(vs.take(0)) =~= Seq::empty());
    lemma_values_round_trip(head, vs, 0);
    assert(vs.skip(0) =~= vs);
}

/// What a partial decode gives for each requested column of a row.
pub open spec fn picked(vs: Seq<ValueV>, wanted: Seq<usize>) -> Seq<Option<ValueV>> {
    Seq::new(
        wanted.len(),
        |w: int|
            if wanted[w] < vs.len() {
                Some(vs[wanted[w] as int])
            } else {
                None
            },
    )
}

pub open spec fn strictly_increasing(wanted: Seq<usize>) -> bool {
    forall|a: int, b: int| 0 <= a < b < wanted.len() ==> wanted[a] < wanted[b]
}

proof fn lemma_skip_agrees(buf: Seq<u8>, pos: int, tag: u8)
    requires
        payload_at(buf, pos, tag) is Ok,
    ensures
        skip_at(buf, pos, tag) == Ok::<_, ErrorV>(payload_at(buf, pos, tag)->Ok_0.1),
{
}

proof fn lemma_columns_agree(
    buf: Seq<u8>,
    ts: Seq<u8>,
    wanted: Seq<usize>,
    i: nat,
    w: nat,
    pos: int,
)
    requires
        strictly_increasing(wanted),
        values_from(buf, ts, i, pos) is Ok,
        i <= ts.len(),
        w <= wanted.len(),
        w < wanted.len() ==> wanted[w as int] >= i,
    ensures
        ({
            let vs = values_from(buf, ts, i, pos)->Ok_0.0;
            &&& vs.len() == ts.len() - i
            &&& columns_from(buf, ts, wanted, i, w, pos) == Ok::<_, ErrorV>(
                Seq::new(
                    (wanted.len() - w) as nat,
                    |k: int|
                        if wanted[w + k] < ts.len() {
                            Some(vs[wanted[w + k] - i])
                        } else {
                            None
                        },
                ),
            )
        }),
    decreases ts.len() - i,
{
    let vs = values_from(buf, ts, i, pos)->Ok_0.0;
    let want = Seq::new(
        (wanted.len() - w) as nat,
        |k: int|
            if wanted[w + k] < ts.len() {
                Some(vs[wanted[w + k] - i])
            } else {
                None
            },
    );
    if i < ts.len() {
        let (v, p) = payload_at(buf, pos, ts[i as int])->Ok_0;
        let rest = values_from(buf, ts, i + 1, p)->Ok_0.0;
        lemma_skip_agrees(buf, pos, ts[i as int]);
        assert(vs == seq![v] + rest);
        if w < wanted.len() && wanted[w as int] == i {
            lemma_columns_agree(buf, ts, wanted, i + 1, w + 1, p);
            assert(want =~= seq![Some(v)] + columns_from(buf, ts, wanted, i + 1, w + 1, p)->Ok_0);
        } else {
            lemma_columns_agree(buf, ts, wanted, i + 1, w, p);
            if w < wanted.len() {
                assert(want =~= columns_from(buf, ts, wanted, i + 1, w, p)->Ok_0);
            } else {
                assert(want =~= Seq::empty());
            }
        }
    } else {
        if w < wanted.len() {
            assert(want =~= Seq::new((wanted.len() - w) as nat, |k: int| None));
        } else {
            assert(want =~= Seq::empty());
        }
    }
}

/// A partial decode agrees with the full one: of a record that decodes, every
/// requested column comes out as in the row, and as `None` behind its end.
pub proof fn partial_decode_agrees(buf: Seq<u8>, wanted: Seq<usize>)
    requires
        decoded(buf) is Ok,
        strictly_increasing(wanted),
    ensures
        columns_of(buf, wanted) == Ok::<_, ErrorV>(picked(decoded(buf)->Ok_0, wanted)),
{
    let (ts, pos) = head_at(buf)->Ok_0;
    lemma_columns_agree(buf, ts, wanted, 0, 0, pos);
    assert(picked(decoded(buf)->Ok_0, wanted) =~= columns_of(buf, wanted)->Ok_0);
}

// --- row identifiers that order as bytes ---

/// A signed number moved to the unsigned range, keeping the order.
pub open spec fn biased(n: i64) -> nat {
    (n + 0x8000_0000_0000_0000) as nat
}

/// Eight bytes as an array.
pub(crate) fn array8(b: &Vec<u8>) -> (r: [u8; 8])
    requires
        b@.len() == 8,
    ensures
        r@ == b@,
{
    let r: [u8; 8] = [b[0], b[1], b[2], b[3], b[4], b[5], b[6], b[7]];
    assert(r@ =~= b@);
    r
}

/// The row identifier with the sign bit flipped, big-endian.
pub fn rowid_be(rowid: i64) -> (r: [u8; 8])
    ensures
        r@ == be_bytes(biased(rowid), 8),
{
    let mut out: Vec<u8> = Vec::new();
    let u: u64 = (rowid as i128 + 0x8000_0000_0000_0000) as u64;
    push_be(&mut out, u, 8);
    proof {
        lemma_be_bytes_len(u as nat, 8);
        assert(out@ =~= be_bytes(u as nat, 8));
    }
    array8(&out)
}

/// The row identifier that eight bytes denote; `None` for another length.
pub fn rowid_from_be(bytes: &[u8]) -> (r: Option<i64>)
    ensures
        r is Some <==> bytes@.len() == 8,
        r is Some ==> r->0 == be_value(bytes@) - 0x8000_0000_0000_0000,
{
    if bytes.len() != 8 {
        return None;
    }
    let u: u64 = read_be(bytes, 0, 8);
    assert(bytes@.subrange(0, 8) =~= bytes@);
    Some((u as i128 - 0x8000_0000_0000_0000) as i64)
}

/// Row identifiers survive the conversion, and their bytes are ordered as the
/// numbers are.
pub proof fn rowid_order(a: i64, b: i64)
    ensures
        be_value(be_bytes(biased(a), 8)) - 0x8000_0000_0000_0000 == a,
        lex_lt(be_bytes(biased(a), 8), be_bytes(biased(b), 8)) == (a < b),
{
    lemma_pow256_values();
    lemma_be_round_trip(biased(a), 8);
    lemma_be_round_trip(biased(b), 8);
    lemma_be_bytes_len(biased(a), 8);
    lemma_be_bytes_len(biased(b), 8);
    lemma_be_order(be_bytes(biased(a), 8), be_bytes(biased(b), 8));
}

} // verus!
