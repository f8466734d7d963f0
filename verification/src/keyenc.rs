//! Order-preserving encodings for keys: the lexicographic order of the encoded
//! bytes is the order of the values, and every encoding delimits itself, so that
//! encodings can be concatenated.
use vstd::prelude::*;
use vstd::utf8::encode_utf8;

use crate::bytes::{push_be, read_be};
#[allow(unused_imports)]
use crate::bytes::{be_bytes, be_value, lemma_be_bytes_len, lemma_be_order, lemma_be_round_trip, lemma_lex_asymmetric, lemma_lex_prefix, lemma_lex_suffix, lemma_pow256_values, lex_lt, pow256};
#[allow(unused_imports)]
use crate::reals::{is_nan, magnitude, rank, SIGN_BIT};
use crate::reals::{magnitude_of, nan};
use crate::record::{Value, ValueRef, ValueV};
#[allow(unused_imports)]
use crate::record::biased;

verus! {

// --- index values ---

/// The bits of a real moved so that their order is the order of the reals:
/// negative ones are inverted, the others get the sign bit. A NaN of either sign comes
/// after every number.
pub open spec fn real_key(bits: u64) -> nat {
    if is_nan(bits) {
        (magnitude(bits) + SIGN_BIT) as nat
    } else if bits >= SIGN_BIT {
        (u64::MAX - bits) as nat
    } else {
        (bits + SIGN_BIT) as nat
    }
}

/// Bytes with every zero escaped as `00 FF` and `00 00` at the end.
pub open spec fn escaped(b: Seq<u8>) -> Seq<u8>
    decreases b.len(),
{
    if b.len() == 0 {
        seq![0u8, 0u8]
    } else if b[0] == 0 {
        seq![0u8, 0xFFu8] + escaped(b.drop_first())
    } else {
        seq![b[0]] + escaped(b.drop_first())
    }
}

/// The key of a value: a presence byte, then the encoding of its type.
pub open spec fn index_key(v: ValueV) -> Seq<u8> {
    match v {
        ValueV::Null => seq![0u8],
        ValueV::Integer(n) => seq![1u8] + be_bytes(biased(n), 8),
        ValueV::Real(b) => seq![1u8] + be_bytes(real_key(b), 8),
        ValueV::Bool(b) => seq![1u8, if b { 1u8 } else { 0u8 }],
        ValueV::Text(s) => seq![1u8] + escaped(encode_utf8(s)),
        ValueV::Blob(b) => seq![1u8] + escaped(b),
    }
}

/// Appends the key of a value.
pub fn encode_index_value(v: &Value, out: &mut Vec<u8>)
    ensures
        final(out)@ == old(out)@ + index_key(v@),
{
    encode_index_value_ref(ValueRef::of(v), out);
}

/// Appends the key of a borrowed value.
pub fn encode_index_value_ref(v: ValueRef<'_>, out: &mut Vec<u8>)
    ensures
        final(out)@ == old(out)@ + index_key(v@),
{
    match v {
        ValueRef::Null => {
            out.push(0x00);
        },
        ValueRef::Integer(n) => {
            out.push(0x01);
            let u: u64 = (n as i128 + 0x8000_0000_0000_0000) as u64;
            push_be(out, u, 8);
        },
        ValueRef::Real(b) => {
            out.push(0x01);
            push_be(out, real_key_of(b), 8);
        },
        ValueRef::Bool(b) => {
            out.push(0x01);
            out.push(if b { 1u8 } else { 0u8 });
        },
        ValueRef::Text(s) => {
            out.push(0x01);
            encode_bytes(s.as_bytes(), out);
        },
        ValueRef::Blob(b) => {
            out.push(0x01);
            encode_bytes(b, out);
        },
    }
    assert(out@ =~= old(out)@ + index_key(v@));
}

fn real_key_of(bits: u64) -> (r: u64)
    ensures
        r == real_key(bits),
{
    if nan(bits) {
        magnitude_of(bits) + SIGN_BIT
    } else if bits >= SIGN_BIT {
        u64::MAX - bits
    } else {
        bits + SIGN_BIT
    }
}

/// Appends escaped bytes and their terminator.
pub fn encode_bytes(b: &[u8], out: &mut Vec<u8>)
    ensures
        final(out)@ == old(out)@ + escaped(b@),
{
    let mut i: usize = 0;
    let ghost all = out@ + escaped(b@);
    assert(b@.skip(0) =~= b@);
    while i < b.len()
        invariant
            i <= b@.len(),
            out@ + escaped(b@.skip(i as int)) == all,
        decreases b@.len() - i,
    {
        let ghost before = out@;
        let byte: u8 = b[i];
        out.push(byte);
        if byte == 0x00 {
            out.push(0xFF);
        }
        assert(b@.skip(i as int).drop_first() =~= b@.skip(i + 1));
        assert(before + escaped(b@.skip(i as int)) =~= out@ + escaped(b@.skip(i + 1)));
        i = i + 1;
    }
    assert(b@.skip(i as int) =~= Seq::empty());
    let ghost before = out@;
    out.push(0x00);
    out.push(0x00);
    assert(out@ =~= before + seq![0u8, 0u8]);
}

/// `a` comes before `b` in an index: NULL before everything else, values of one
/// type in the order of the type.
pub open spec fn key_before(a: ValueV, b: ValueV) -> bool {
    match (a, b) {
        (ValueV::Null, ValueV::Null) => false,
        (ValueV::Null, _) => true,
        (ValueV::Integer(x), ValueV::Integer(y)) => x < y,
        (ValueV::Real(x), ValueV::Real(y)) => real_key(x) < real_key(y),
        (ValueV::Bool(x), ValueV::Bool(y)) => !x && y,
        (ValueV::Text(x), ValueV::Text(y)) => lex_lt(encode_utf8(x), encode_utf8(y)),
        (ValueV::Blob(x), ValueV::Blob(y)) => lex_lt(x, y),
        _ => false,
    }
}

/// Values of one type that an index can hold.
pub open spec fn same_type(a: ValueV, b: ValueV) -> bool {
    match (a, b) {
        (ValueV::Integer(_), ValueV::Integer(_)) => true,
        (ValueV::Real(_), ValueV::Real(_)) => true,
        (ValueV::Bool(_), ValueV::Bool(_)) => true,
        (ValueV::Text(_), ValueV::Text(_)) => true,
        (ValueV::Blob(_), ValueV::Blob(_)) => true,
        _ => false,
    }
}

/// Reals are ordered by their keys as by their values.
pub proof fn real_key_order(a: u64, b: u64)
    requires
        !is_nan(a),
        !is_nan(b),
        rank(a) < rank(b),
    ensures
        real_key(a) < real_key(b),
{
}

/// A NaN, whatever its sign, sorts behind every number.
pub proof fn nan_sorts_last(a: u64, b: u64)
    requires
        is_nan(a),
        !is_nan(b),
    ensures
        real_key(a) > real_key(b),
{
}

/// How many of the bytes are zero.
pub open spec fn zero_count(b: Seq<u8>) -> nat
    decreases b.len(),
{
    if b.len() == 0 {
        0
    } else {
        zero_count(b.drop_first()) + if b[0] == 0 { 1nat } else { 0nat }
    }
}

/// Escaped bytes are longer by the zeros among them and the terminator, with which they
/// end.
pub proof fn escaped_length(b: Seq<u8>)
    ensures
        escaped(b).len() == b.len() + zero_count(b) + 2,
        escaped(b)[escaped(b).len() - 2] == 0,
        escaped(b)[escaped(b).len() - 1] == 0,
    decreases b.len(),
{
    if b.len() > 0 {
        escaped_length(b.drop_first());
    }
}

/// Escaped bytes order as the bytes do, whatever follows them: a prefix comes before its
/// extension, and none is the start of another.
pub proof fn escaped_order(a: Seq<u8>, b: Seq<u8>, x: Seq<u8>, y: Seq<u8>)
    requires
        a != b,
    ensures
        lex_lt(escaped(a) + x, escaped(b) + y) == lex_lt(a, b),
        escaped(a) + x != escaped(b) + y,
{
    lemma_lex_total(a, b);
    if lex_lt(a, b) {
        lemma_escaped_order(a, b, x, y);
        lemma_lex_asymmetric(escaped(a) + x, escaped(b) + y);
    } else {
        lemma_escaped_order(b, a, y, x);
        lemma_lex_asymmetric(b, a);
        lemma_lex_asymmetric(escaped(b) + y, escaped(a) + x);
    }
}

proof fn lemma_escaped_order(a: Seq<u8>, b: Seq<u8>, x: Seq<u8>, y: Seq<u8>)
    requires
        lex_lt(a, b),
    ensures
        lex_lt(escaped(a) + x, escaped(b) + y),
    decreases a.len(),
{
    let (ea, eb) = (escaped(a), escaped(b));
    let (l, r) = (ea + x, eb + y);
    if a.len() == 0 {
        assert(l[0] == 0 && l[1] == 0);
        assert(eb.len() >= 2) by {
            lemma_escaped_len(b);
        }
        if b[0] == 0 {
            assert(r[0] == 0 && r[1] == 0xFF);
            reveal_with_fuel(lex_lt, 2);
            assert(l.drop_first()[0] == 0);
            assert(r.drop_first()[0] == 0xFF);
        } else {
            assert(r[0] == b[0]);
        }
    } else {
        let (ta, tb) = (a.drop_first(), b.drop_first());
        lemma_escaped_len(a);
        lemma_escaped_len(b);
        if a[0] == b[0] {
            lemma_escaped_order(ta, tb, x, y);
            if a[0] == 0 {
                let p = seq![0u8, 0xFFu8];
                assert(l =~= p + (escaped(ta) + x));
                assert(r =~= p + (escaped(tb) + y));
                lemma_lex_prefix(p, escaped(ta) + x, escaped(tb) + y);
            } else {
                let p = seq![a[0]];
                assert(l =~= p + (escaped(ta) + x));
                assert(r =~= p + (escaped(tb) + y));
                lemma_lex_prefix(p, escaped(ta) + x, escaped(tb) + y);
            }
        } else {
            assert(l[0] == a[0]);
            assert(r[0] == b[0]);
        }
    }
}

proof fn lemma_escaped_len(b: Seq<u8>)
    ensures
        escaped(b).len() >= 2,
    decreases b.len(),
{
    if b.len() > 0 {
        lemma_escaped_len(b.drop_first());
    }
}

/// Keys order as the values do, whatever follows them.
pub proof fn index_key_order(a: ValueV, b: ValueV, x: Seq<u8>, y: Seq<u8>)
    requires
        key_before(a, b),
    ensures
        lex_lt(index_key(a) + x, index_key(b) + y),
{
    let (l, r) = (index_key(a) + x, index_key(b) + y);
    let p = seq![1u8];
    match (a, b) {
        (ValueV::Null, _) => {
            assert(l[0] == 0);
            assert(r[0] == 1);
        },
        (ValueV::Integer(m), ValueV::Integer(n)) => {
            let (u, v) = (be_bytes(biased(m), 8), be_bytes(biased(n), 8));
            crate::record::rowid_order(m, n);
            lemma_be_bytes_len(biased(m), 8);
            lemma_be_bytes_len(biased(n), 8);
            lemma_lex_asymmetric(u, v);
            lemma_lex_suffix(u, v, x, y);
            assert(l =~= p + (u + x));
            assert(r =~= p + (v + y));
            lemma_lex_prefix(p, u + x, v + y);
        },
        (ValueV::Real(m), ValueV::Real(n)) => {
            let (u, v) = (be_bytes(real_key(m), 8), be_bytes(real_key(n), 8));
            lemma_pow256_values();
            lemma_be_round_trip(real_key(m), 8);
            lemma_be_round_trip(real_key(n), 8);
            lemma_be_bytes_len(real_key(m), 8);
            lemma_be_bytes_len(real_key(n), 8);
            lemma_be_order(u, v);
            lemma_lex_asymmetric(u, v);
            lemma_lex_suffix(u, v, x, y);
            assert(l =~= p + (u + x));
            assert(r =~= p + (v + y));
            lemma_lex_prefix(p, u + x, v + y);
        },
        (ValueV::Bool(m), ValueV::Bool(n)) => {
            let (u, v) = (seq![0u8], seq![1u8]);
            assert(l =~= p + (u + x));
            assert(r =~= p + (v + y));
            assert((u + x)[0] == 0 && (v + y)[0] == 1);
            lemma_lex_prefix(p, u + x, v + y);
        },
        (ValueV::Text(s), ValueV::Text(t)) => {
            let (u, v) = (encode_utf8(s), encode_utf8(t));
            lemma_escaped_order(u, v, x, y);
            assert(l =~= p + (escaped(u) + x));
            assert(r =~= p + (escaped(v) + y));
            lemma_lex_prefix(p, escaped(u) + x, escaped(v) + y);
        },
        (ValueV::Blob(u), ValueV::Blob(v)) => {
            lemma_escaped_order(u, v, x, y);
            assert(l =~= p + (escaped(u) + x));
            assert(r =~= p + (escaped(v) + y));
            lemma_lex_prefix(p, escaped(u) + x, escaped(v) + y);
        },
        _ => {},
    }
}

proof fn lemma_lex_total(a: Seq<u8>, b: Seq<u8>)
    ensures
        a == b || lex_lt(a, b) || lex_lt(b, a),
    decreases a.len(),
{
    if a.len() == 0 && b.len() == 0 {
        assert(a =~= b);
    } else if a.len() > 0 && b.len() > 0 && a[0] == b[0] {
        lemma_lex_total(a.drop_first(), b.drop_first());
        if a.drop_first() == b.drop_first() {
            assert(a =~= seq![a[0]] + a.drop_first());
            assert(b =~= seq![b[0]] + b.drop_first());
        }
    }
}

/// Values with the same key: equal ones, and NaNs that differ in their sign alone.
pub open spec fn same_entry(a: ValueV, b: ValueV) -> bool {
    match (a, b) {
        (ValueV::Real(m), ValueV::Real(n)) => m == n || is_nan(m) && is_nan(n) && magnitude(m) == magnitude(n),
        _ => a == b,
    }
}

/// Keys delimit themselves: of two values of one type, neither key is the start of
/// the other, so equal strings that start with a key start with the same value.
pub proof fn index_key_delimits(a: ValueV, b: ValueV, x: Seq<u8>, y: Seq<u8>)
    requires
        same_type(a, b),
        index_key(a) + x == index_key(b) + y,
    ensures
        same_entry(a, b),
        x == y,
{
    if !same_entry(a, b) {
        match (a, b) {
            (ValueV::Text(s), ValueV::Text(t)) => {
                lemma_lex_total(encode_utf8(s), encode_utf8(t));
                vstd::utf8::encode_utf8_decode_utf8(s);
                vstd::utf8::encode_utf8_decode_utf8(t);
            },
            (ValueV::Blob(s), ValueV::Blob(t)) => {
                lemma_lex_total(s, t);
            },
            _ => {},
        }
        if key_before(a, b) {
            index_key_order(a, b, x, y);
            lemma_lex_asymmetric(index_key(a) + x, index_key(b) + y);
        } else {
            index_key_order(b, a, y, x);
            lemma_lex_asymmetric(index_key(b) + y, index_key(a) + x);
        }
    }
    let n = index_key(a).len() as int;
    assert(x =~= (index_key(a) + x).skip(n));
    assert(y =~= (index_key(b) + y).skip(n));
}

// --- integers of variable length ---

/// Number of significant base-256 digits.
pub open spec fn digits(c: nat) -> nat
    decreases c,
{
    if c == 0 {
        0
    } else {
        1 + digits(c / 256)
    }
}

pub open spec fn complement(b: Seq<u8>) -> Seq<u8> {
    Seq::new(b.len(), |i: int| (255 - b[i]) as u8)
}

/// The encoding of an integer: a header with sign and digit count, then the
/// significant bytes, complemented for negative numbers.
pub open spec fn oint(v: i64) -> Seq<u8> {
    if v >= 0 {
        seq![(0x80 + digits(v as nat)) as u8] + be_bytes(v as nat, digits(v as nat))
    } else {
        let c = (-v - 1) as nat;
        seq![(0x7F - digits(c)) as u8] + complement(be_bytes(c, digits(c)))
    }
}

proof fn lemma_digits(c: nat, n: nat)
    requires
        c < pow256(n),
    ensures
        digits(c) <= n,
        c < pow256(digits(c)),
    decreases n,
{
    if c > 0 {
        if n == 0 {
            assert(false);
        }
        lemma_digits(c / 256, (n - 1) as nat);
    }
}

proof fn lemma_digits_mono(a: nat, b: nat)
    requires
        a <= b,
    ensures
        digits(a) <= digits(b),
    decreases b,
{
    if a > 0 {
        lemma_digits_mono(a / 256, b / 256);
    }
}

fn digits_of(c: u64) -> (r: usize)
    ensures
        r == digits(c as nat),
        r <= 8,
{
    let mut rest: u64 = c;
    let mut n: usize = 0;
    proof {
        lemma_pow256_values();
        lemma_digits(c as nat, 8);
    }
    while rest > 0
        invariant
            n + digits(rest as nat) == digits(c as nat),
            digits(c as nat) <= 8,
        decreases rest,
    {
        rest = rest / 256;
        n = n + 1;
    }
    n
}

/// Appends the encoding of an integer.
pub fn encode_oint(v: i64, out: &mut Vec<u8>)
    ensures
        final(out)@ == old(out)@ + oint(v),
{
    if v >= 0 {
        let u: u64 = v as u64;
        let n: usize = digits_of(u);
        out.push(0x80 + n as u8);
        push_be(out, u, n);
        assert(out@ =~= old(out)@ + oint(v));
    } else {
        let c: u64 = (-(v + 1)) as u64;
        let n: usize = digits_of(c);
        out.push(0x7F - n as u8);
        let mut b: Vec<u8> = Vec::new();
        push_be(&mut b, c, n);
        proof {
            lemma_be_bytes_len(c as nat, n as nat);
            assert(b@ =~= be_bytes(c as nat, n as nat));
        }
        let ghost before = out@;
        let mut i: usize = 0;
        assert(out@ =~= before + complement(b@.take(0)));
        while i < b.len()
            invariant
                i <= b@.len(),
                out@ == before + complement(b@.take(i as int)),
            decreases b@.len() - i,
        {
            out.push(255 - b[i]);
            assert(complement(b@.take(i + 1)) =~= complement(b@.take(i as int)).push(
                (255 - b@[i as int]) as u8,
            ));
            i = i + 1;
        }
        assert(b@.take(i as int) =~= b@);
        assert(out@ =~= old(out)@ + oint(v));
    }
}

/// A number taken into the range of `i64`, modulo 2^64.
pub open spec fn wrap_i64(x: int) -> i64 {
    if x > i64::MAX {
        (x - 0x1_0000_0000_0000_0000) as i64
    } else if x < i64::MIN {
        (x + 0x1_0000_0000_0000_0000) as i64
    } else {
        x as i64
    }
}

/// Reads an encoded integer: its value and the position behind the bytes read.
/// No value where the header is out of range or bytes are missing.
pub open spec fn oint_at(buf: Seq<u8>, pos: int) -> (Option<i64>, int) {
    if pos < 0 || pos >= buf.len() {
        (None, pos)
    } else {
        let h = buf[pos] as int;
        let n = if h >= 0x80 {
            h - 0x80
        } else {
            0x7F - h
        };
        if n > 8 || n > buf.len() - (pos + 1) {
            (None, pos + 1)
        } else {
            let b = buf.subrange(pos + 1, pos + 1 + n);
            if h >= 0x80 {
                (Some(wrap_i64(be_value(b) as int)), pos + 1 + n)
            } else {
                (Some(wrap_i64(-be_value(complement(b)) - 1)), pos + 1 + n)
            }
        }
    }
}

/// Inverse of [`encode_oint`]; advances `pos` behind the bytes read.
pub fn decode_oint(buf: &[u8], pos: &mut usize) -> (r: Option<i64>)
    ensures
        (r, *final(pos) as int) == oint_at(buf@, *old(pos) as int),
{
    if *pos >= buf.len() {
        return None;
    }
    let header: u8 = buf[*pos];
    *pos = *pos + 1;
    let at: usize = *pos;
    if header >= 0x80 {
        let n: usize = (header - 0x80) as usize;
        if n > 8 || n > buf.len() - at {
            return None;
        }
        let u: u64 = read_be(buf, at, n);
        *pos = at + n;
        Some(u64_to_i64(u))
    } else {
        let n: usize = (0x7F - header) as usize;
        if n > 8 || n > buf.len() - at {
            return None;
        }
        let mut b: Vec<u8> = Vec::new();
        let mut i: usize = 0;
        while i < n
            invariant
                i <= n,
                at + n <= buf@.len(),
                b@.len() == i,
                forall|k: int| 0 <= k < i ==> b@[k] == (255 - buf@[at + k]) as u8,
            decreases n - i,
        {
            assert(buf.len() == buf@.len());
            b.push(255 - buf[at + i]);
            i = i + 1;
        }
        assert(b@ =~= complement(buf@.subrange(at as int, at + n)));
        let c: u64 = read_be(b.as_slice(), 0, n);
        assert(b@.subrange(0, n as int) =~= b@);
        *pos = at + n;
        Some(u64_to_i64(u64::MAX - c))
    }
}

fn u64_to_i64(u: u64) -> (r: i64)
    ensures
        r == wrap_i64(u as int),
        r == wrap_i64(u as int - 0x1_0000_0000_0000_0000),
{
    if u > 0x7FFF_FFFF_FFFF_FFFF {
        (u as i128 - 0x1_0000_0000_0000_0000) as i64
    } else {
        u as i64
    }
}

/// An encoded integer has at most nine bytes.
pub proof fn oint_len(v: i64)
    ensures
        1 <= oint(v).len() <= 9,
{
    let c = if v >= 0 {
        v as nat
    } else {
        (-v - 1) as nat
    };
    lemma_pow256_values();
    lemma_digits(c, 8);
    lemma_be_bytes_len(c, digits(c));
}

/// Decoding an integer where it was encoded gives it back and stops right behind
/// it, whatever stands around it.
pub proof fn oint_round_trip(before: Seq<u8>, v: i64, after: Seq<u8>)
    ensures
        oint_at(before + oint(v) + after, before.len() as int) == (
            Some(v),
            (before.len() + oint(v).len()) as int,
        ),
{
    let buf = before + oint(v) + after;
    let p = before.len() as int;
    let c = if v >= 0 {
        v as nat
    } else {
        (-v - 1) as nat
    };
    let n = digits(c);
    lemma_pow256_values();
    lemma_digits(c, 8);
    lemma_be_bytes_len(c, n);
    lemma_be_round_trip(c, n);
    assert(buf[p] == oint(v)[0]);
    let b = buf.subrange(p + 1, p + 1 + n);
    if v >= 0 {
        assert(b =~= be_bytes(c, n));
    } else {
        assert(b =~= complement(be_bytes(c, n)));
        assert(complement(b) =~= be_bytes(c, n));
    }
}

proof fn lemma_complement_order(a: Seq<u8>, b: Seq<u8>)
    requires
        a.len() == b.len(),
    ensures
        lex_lt(complement(a), complement(b)) == lex_lt(b, a),
        complement(a) == complement(b) ==> a == b,
    decreases a.len(),
{
    if a.len() == 0 {
        assert(a =~= b);
    } else {
        let (ca, cb) = (complement(a), complement(b));
        assert(ca[0] == 255 - a[0]);
        assert(cb[0] == 255 - b[0]);
        assert(ca.drop_first() =~= complement(a.drop_first()));
        assert(cb.drop_first() =~= complement(b.drop_first()));
        lemma_complement_order(a.drop_first(), b.drop_first());
        if ca == cb {
            assert(a =~= b) by {
                assert forall|i: int| 0 <= i < a.len() implies a[i] == b[i] by {
                    assert(ca[i] == cb[i]);
                }
            }
        }
    }
}

/// Encoded integers order as the integers do, whatever follows them; so no
/// encoding is the start of another.
pub proof fn oint_order(a: i64, b: i64, x: Seq<u8>, y: Seq<u8>)
    requires
        a < b,
    ensures
        lex_lt(oint(a) + x, oint(b) + y),
{
    let (l, r) = (oint(a) + x, oint(b) + y);
    let ca = if a >= 0 {
        a as nat
    } else {
        (-a - 1) as nat
    };
    let cb = if b >= 0 {
        b as nat
    } else {
        (-b - 1) as nat
    };
    let (na, nb) = (digits(ca), digits(cb));
    lemma_pow256_values();
    lemma_digits(ca, 8);
    lemma_digits(cb, 8);
    lemma_be_bytes_len(ca, na);
    lemma_be_bytes_len(cb, nb);
    lemma_be_round_trip(ca, na);
    lemma_be_round_trip(cb, nb);
    assert(l[0] == oint(a)[0]);
    assert(r[0] == oint(b)[0]);
    let (u, v) = (be_bytes(ca, na), be_bytes(cb, nb));
    if a >= 0 {
        lemma_digits_mono(ca, cb);
        if na == nb {
            lemma_be_order(u, v);
            lemma_lex_asymmetric(u, v);
            lemma_lex_suffix(u, v, x, y);
            let p = seq![oint(a)[0]];
            assert(l =~= p + (u + x));
            assert(r =~= p + (v + y));
            lemma_lex_prefix(p, u + x, v + y);
        }
    } else if b < 0 {
        lemma_digits_mono(cb, ca);
        if na == nb {
            lemma_be_order(v, u);
            lemma_complement_order(u, v);
            let (cu, cv) = (complement(u), complement(v));
            lemma_lex_asymmetric(cu, cv);
            lemma_lex_suffix(cu, cv, x, y);
            let p = seq![oint(a)[0]];
            assert(l =~= p + (cu + x));
            assert(r =~= p + (cv + y));
            lemma_lex_prefix(p, cu + x, cv + y);
        }
    }
}

/// Pairs of integers, encoded one behind the other, order by the first and then by
/// the second.
pub proof fn oint_pair_order(a1: i64, a2: i64, b1: i64, b2: i64)
    requires
        a1 < b1 || (a1 == b1 && a2 < b2),
    ensures
        lex_lt(oint(a1) + oint(a2), oint(b1) + oint(b2)),
{
    if a1 < b1 {
        oint_order(a1, b1, oint(a2), oint(b2));
    } else {
        oint_order(a2, b2, Seq::empty(), Seq::empty());
        assert(oint(a2) + Seq::<u8>::empty() =~= oint(a2));
        assert(oint(b2) + Seq::<u8>::empty() =~= oint(b2));
        lemma_lex_prefix(oint(a1), oint(a2), oint(b2));
    }
}

} // verus!
