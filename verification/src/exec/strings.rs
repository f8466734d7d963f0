//! Text helpers of the scalar functions.
use vstd::prelude::*;

use crate::text::{chars_of, hex_of, push_chars, string_of, string_range};
#[allow(unused_imports)]
use crate::text::hex_char;

verus! {

/// What `str::to_uppercase` gives.
pub uninterp spec fn text_upper(s: Seq<char>) -> Seq<char>;

/// `str::to_uppercase`: a function of the text alone, by the Unicode tables of std.
#[verifier::external_body]
pub(crate) fn to_upper(s: &str) -> (r: String)
    ensures
        r@ == text_upper(s@),
{
    s.to_uppercase()
}

/// What `str::to_lowercase` gives.
pub uninterp spec fn text_lower(s: Seq<char>) -> Seq<char>;

/// `str::to_lowercase`: a function of the text alone, by the Unicode tables of std.
#[verifier::external_body]
pub(crate) fn to_lower(s: &str) -> (r: String)
    ensures
        r@ == text_lower(s@),
{
    s.to_lowercase()
}

// --- hexadecimal ---

/// Two upper-case digits per byte.
pub open spec fn hex_text(b: Seq<u8>) -> Seq<char>
    decreases b.len(),
{
    if b.len() == 0 {
        Seq::empty()
    } else {
        hex_text(b.drop_last()) + seq![
            hex_char(b.last() as int / 16, true),
            hex_char(b.last() as int % 16, true),
        ]
    }
}

/// Bytes as upper-case hexadecimal text.
pub fn to_hex(bytes: &[u8]) -> (r: String)
    ensures
        r@ == hex_text(bytes@),
{
    let mut out: Vec<char> = Vec::new();
    let n: usize = bytes.len();
    assert(bytes@.take(0) =~= Seq::empty());
    for i in 0..n
        invariant
            n == bytes@.len(),
            out@ == hex_text(bytes@.take(i as int)),
    {
        out.push(hex_of(bytes[i] / 16, true));
        out.push(hex_of(bytes[i] % 16, true));
        assert(bytes@.take(i + 1).drop_last() =~= bytes@.take(i as int));
        assert(out@ =~= hex_text(bytes@.take(i + 1)));
    }
    assert(bytes@.take(n as int) =~= bytes@);
    string_of(out)
}

// --- substrings ---

/// `t` stands at position `i` of `s`.
pub open spec fn stands_at(s: Seq<char>, t: Seq<char>, i: int) -> bool {
    0 <= i && i + t.len() <= s.len() && s.subrange(i, i + t.len()) == t
}

/// The first position from `i` on at which `t` stands.
pub open spec fn first_at(s: Seq<char>, t: Seq<char>, i: int) -> Option<int>
    decreases s.len() + 1 - i,
{
    if i < 0 || i + t.len() > s.len() {
        None
    } else if stands_at(s, t, i) {
        Some(i)
    } else {
        first_at(s, t, i + 1)
    }
}

/// `s` from position `i` on, with every occurrence of `from`, left to right,
/// replaced.
pub open spec fn replaced(s: Seq<char>, from: Seq<char>, to: Seq<char>, i: int) -> Seq<char>
    decreases s.len() - i,
{
    if i < 0 || i >= s.len() {
        Seq::empty()
    } else if from.len() > 0 && stands_at(s, from, i) {
        to + replaced(s, from, to, i + from.len())
    } else {
        seq![s[i]] + replaced(s, from, to, i + 1)
    }
}

fn standing(s: &[char], t: &[char], i: usize) -> (r: bool)
    requires
        i <= s@.len(),
    ensures
        r == stands_at(s@, t@, i as int),
{
    if t.len() > s.len() - i {
        return false;
    }
    let n: usize = t.len();
    for k in 0..n
        invariant
            n == t@.len(),
            i + n <= s@.len(),
            forall|j: int| 0 <= j < k ==> s@[i + j] == t@[j],
    {
        assert(s.len() == s@.len());
        if s[i + k] != t[k] {
            assert(s@.subrange(i as int, i + n)[k as int] != t@[k as int]);
            return false;
        }
    }
    assert(s@.subrange(i as int, i + n) =~= t@);
    true
}

/// The first position at which `t` stands.
pub fn find(s: &[char], t: &[char]) -> (r: Option<usize>)
    ensures
        (match first_at(s@, t@, 0) {
            Some(i) => r is Some && r->0 == i && i + t@.len() <= s@.len(),
            None => r is None,
        }),
{
    let mut i: usize = 0;
    while t.len() <= s.len() - i
        invariant
            i <= s@.len(),
            first_at(s@, t@, 0) == first_at(s@, t@, i as int),
        decreases s@.len() - i,
    {
        if standing(s, t, i) {
            return Some(i);
        }
        if i == s.len() {
            assert(t@.len() == 0);
            assert(stands_at(s@, t@, i as int)) by {
                assert(s@.subrange(i as int, i as int) =~= t@);
            }
            return None;
        }
        i = i + 1;
    }
    None
}

/// Replaces every occurrence of a text that is not empty.
pub fn replace_all(s: &str, from: &str, to: &str) -> (r: String)
    requires
        from@.len() > 0,
    ensures
        r@ == replaced(s@, from@, to@, 0),
{
    let sv = chars_of(s);
    let fv = chars_of(from);
    let tv = chars_of(to);
    let mut out: Vec<char> = Vec::new();
    let mut i: usize = 0;
    let ghost all = replaced(s@, from@, to@, 0);
    assert(out@ + all =~= all);
    while i < sv.len()
        invariant
            i <= sv@.len(),
            sv@ == s@,
            fv@ == from@,
            tv@ == to@,
            from@.len() > 0,
            out@ + replaced(s@, from@, to@, i as int) == all,
        decreases sv@.len() - i,
    {
        let ghost before = out@;
        if standing(sv.as_slice(), fv.as_slice(), i) {
            push_chars(&mut out, tv.as_slice());
            assert(before + replaced(s@, from@, to@, i as int) =~= out@ + replaced(
                s@,
                from@,
                to@,
                i + from@.len(),
            ));
            i = i + fv.len();
        } else {
            out.push(sv[i]);
            assert(before + replaced(s@, from@, to@, i as int) =~= out@ + replaced(
                s@,
                from@,
                to@,
                i + 1,
            ));
            i = i + 1;
        }
    }
    assert(out@ + Seq::<char>::empty() =~= out@);
    string_of(out)
}

/// The characters in the opposite order.
pub fn reversed_text(s: &str) -> (r: String)
    ensures
        r@ == s@.reverse(),
{
    let v = chars_of(s);
    let mut out: Vec<char> = Vec::new();
    let n: usize = v.len();
    for i in 0..n
        invariant
            n == v@.len(),
            v@ == s@,
            out@.len() == i,
            forall|k: int| 0 <= k < i ==> out@[k] == s@[n - 1 - k],
    {
        out.push(v[n - 1 - i]);
    }
    assert(out@ =~= s@.reverse());
    string_of(out)
}

pub open spec fn clamp(x: int, lo: int, hi: int) -> int {
    if x < lo {
        lo
    } else if x > hi {
        hi
    } else {
        x
    }
}

/// The bounds of `substr(s, start [, len])` in a text of `n` characters. Positions
/// count from one; a negative start counts from the end.
pub open spec fn substr_bounds(n: int, start: int, len: Option<int>) -> (int, int) {
    let begin = if start < 0 {
        clamp(n + start, 0, n)
    } else {
        clamp(start - 1, 0, n)
    };
    let end = match len {
        None => n,
        Some(l) => if start - 1 > n {
            n
        } else {
            clamp(begin + clamp(l, 0, n), begin, n)
        },
    };
    (begin, end)
}

pub open spec fn substring(s: Seq<char>, start: i64, len: Option<i64>) -> Seq<char> {
    let (b, e) = substr_bounds(
        s.len() as int,
        start as int,
        match len {
            Some(l) => Some(l as int),
            None => None,
        },
    );
    s.subrange(b, e)
}

pub fn substr(s: &str, start: i64, len: Option<i64>) -> (r: String)
    ensures
        r@ == substring(s@, start, len),
{
    let v = chars_of(s);
    let n: i128 = v.len() as i128;
    let begin: i128 = if start < 0 {
        if n + (start as i128) < 0 {
            0
        } else {
            n + start as i128
        }
    } else {
        let x: i128 = start as i128 - 1;
        if x < 0 {
            0
        } else if x > n {
            n
        } else {
            x
        }
    };
    let end: i128 = match len {
        None => n,
        Some(l) => {
            let m: i128 = if l < 0 {
                0
            } else {
                l as i128
            };
            if begin + m > n {
                n
            } else {
                begin + m
            }
        },
    };
    string_range(v.as_slice(), begin as usize, end as usize)
}

// --- padding ---

/// `n` characters of `pad`, repeated as often as needed.
pub open spec fn cycled(pad: Seq<char>, n: nat) -> Seq<char> {
    Seq::new(n, |i: int| pad[i % pad.len() as int])
}

/// `s` brought to `target` characters: cut where it is longer, else filled up with
/// `pad` on one side.
pub open spec fn padded_to(s: Seq<char>, target: nat, pad: Seq<char>, left: bool) -> Seq<char> {
    if s.len() >= target {
        s.take(target as int)
    } else if pad.len() == 0 {
        s
    } else if left {
        cycled(pad, (target - s.len()) as nat) + s
    } else {
        s + cycled(pad, (target - s.len()) as nat)
    }
}

/// The number of characters that a length argument asks for.
pub open spec fn pad_target(len: i64) -> nat {
    if len < 0 {
        0
    } else {
        (len as usize) as nat
    }
}

fn push_cycled(out: &mut Vec<char>, pad: &Vec<char>, n: usize)
    requires
        pad@.len() > 0,
    ensures
        final(out)@ == old(out)@ + cycled(pad@, n as nat),
{
    assert(out@ =~= old(out)@ + cycled(pad@, 0));
    for i in 0..n
        invariant
            pad@.len() > 0,
            out@ == old(out)@ + cycled(pad@, i as nat),
    {
        out.push(pad[i % pad.len()]);
        assert(cycled(pad@, (i + 1) as nat) =~= cycled(pad@, i as nat).push(
            pad@[i as int % pad@.len() as int],
        ));
    }
}

/// Brings a text to a length (`lpad`, `rpad`).
pub fn pad_to(s: &str, len: i64, pad: &str, left: bool) -> (r: String)
    ensures
        r@ == padded_to(s@, pad_target(len), pad@, left),
{
    let target: usize = if len < 0 {
        0
    } else {
        len as usize
    };
    let v = chars_of(s);
    if v.len() >= target {
        let r = string_range(v.as_slice(), 0, target);
        assert(s@.subrange(0, target as int) =~= s@.take(target as int));
        return r;
    }
    let p = chars_of(pad);
    if p.len() == 0 {
        return s.to_owned();
    }
    let fill: usize = target - v.len();
    let mut out: Vec<char> = Vec::new();
    if left {
        push_cycled(&mut out, &p, fill);
        push_chars(&mut out, v.as_slice());
        assert(out@ =~= cycled(p@, fill as nat) + s@);
    } else {
        push_chars(&mut out, v.as_slice());
        push_cycled(&mut out, &p, fill);
        assert(out@ =~= s@ + cycled(p@, fill as nat));
    }
    string_of(out)
}

/// A padded text has the length that was asked for.
pub proof fn padded_length(s: Seq<char>, len: nat, pad: Seq<char>, left: bool)
    requires
        pad.len() > 0,
    ensures
        padded_to(s, len, pad, left).len() == len,
{
}

} // verus!
