//! What the scalar functions are for.
#[allow(unused_imports)]
use vstd::prelude::*;
#[allow(unused_imports)]
use vstd::utf8::*;

#[allow(unused_imports)]
use crate::error::ErrorV;
#[allow(unused_imports)]
use crate::exec::aggregate_laws::recorded;
#[allow(unused_imports)]
use crate::exec::functions::{any_null, apply, extreme, first_known, joined, Func};
#[allow(unused_imports)]
use crate::exec::ops::{value_order, EnvV};
#[allow(unused_imports)]
use crate::exec::pattern::{class_accepts, class_rest, glob};
#[allow(unused_imports)]
use crate::exec::strings::{first_at, hex_text, replaced, stands_at, substring, text_lower, text_upper};
#[allow(unused_imports)]
use crate::exec::value_laws::as_real;
#[allow(unused_imports)]
use crate::reals::{is_nan, magnitude, rank, Binary, Order, RealOpV, Unary};
#[allow(unused_imports)]
use crate::record::ValueV;
#[allow(unused_imports)]
use crate::sql::datetime::{formatted, instant_parts};
#[allow(unused_imports)]
use crate::text::{hex_char, is_space, trim_end, trim_start};

verus! {

// --- texts ---

/// Every character of a text is white space.
pub open spec fn all_space(s: Seq<char>) -> bool {
    forall|i: int| 0 <= i < s.len() ==> is_space(#[trigger] s[i])
}

/// What stands between white space before and after it.
pub open spec fn without_space(s: Seq<char>, before: Seq<char>, r: Seq<char>, after: Seq<char>) -> bool {
    s == before + r + after && all_space(before) && all_space(after)
}

proof fn lemma_trim_start(s: Seq<char>) -> (n: int)
    ensures
        0 <= n <= s.len(),
        trim_start(s) == s.skip(n),
        all_space(s.take(n)),
        trim_start(s).len() > 0 ==> !is_space(trim_start(s)[0]),
    decreases s.len(),
{
    if s.len() > 0 && is_space(s[0]) {
        let m = lemma_trim_start(s.drop_first());
        assert(s.drop_first().skip(m) =~= s.skip(m + 1));
        assert forall|i: int| 0 <= i < m + 1 implies is_space(#[trigger] s.take(m + 1)[i]) by {
            if i > 0 {
                assert(s.take(m + 1)[i] == s.drop_first().take(m)[i - 1]);
            }
        }
        m + 1
    } else {
        assert(s.skip(0) =~= s);
        0
    }
}

proof fn lemma_trim_end(s: Seq<char>) -> (n: int)
    ensures
        0 <= n <= s.len(),
        trim_end(s) == s.take(n),
        all_space(s.skip(n)),
        trim_end(s).len() > 0 ==> !is_space(trim_end(s).last()),
    decreases s.len(),
{
    if s.len() > 0 && is_space(s.last()) {
        let m = lemma_trim_end(s.drop_last());
        assert(s.drop_last().take(m) =~= s.take(m));
        assert forall|i: int| 0 <= i < s.len() - m implies is_space(#[trigger] s.skip(m)[i]) by {
            if i < s.len() - 1 - m {
                assert(s.skip(m)[i] == s.drop_last().skip(m)[i]);
            }
        }
        m
    } else {
        assert(s.take(s.len() as int) =~= s);
        s.len() as int
    }
}

/// `ltrim` takes away all white space at the start of a text, `rtrim` all at its end, `trim` both,
/// and nothing else.
pub proof fn trims_take_white_space_away(env: EnvV, name: Seq<char>, s: Seq<char>) -> (p: (Seq<char>, Seq<char>, Seq<char>))
    ensures
        apply(env, Func::Trim, name, seq![ValueV::Text(s)]) == Ok::<ValueV, ErrorV>(ValueV::Text(p.1)),
        apply(env, Func::Ltrim, name, seq![ValueV::Text(s)]) == Ok::<ValueV, ErrorV>(ValueV::Text(p.1 + p.2)),
        without_space(s, p.0, p.1, p.2),
        p.1.len() > 0 ==> !is_space(p.1[0]) && !is_space(p.1.last()),
        p.1.len() == 0 ==> p.2.len() == 0,
        apply(env, Func::Rtrim, name, seq![ValueV::Text(s)]) is Ok,
        ({
            let r = apply(env, Func::Rtrim, name, seq![ValueV::Text(s)])->Ok_0->Text_0;
            &&& r.len() <= s.len()
            &&& r == s.take(r.len() as int)
            &&& all_space(s.skip(r.len() as int))
            &&& r.len() > 0 ==> !is_space(r.last())
        }),
{
    let a = lemma_trim_start(s);
    let t = trim_start(s);
    let b = lemma_trim_end(t);
    let c = lemma_trim_end(s);
    let r = t.take(b);
    let after = t.skip(b);
    assert(r + after =~= t);
    assert(s =~= s.take(a) + r + after);
    assert(t.len() > 0 && b == 0 ==> is_space(t.skip(b)[0]));
    assert(s.take(c).len() == c);
    (s.take(a), r, after)
}

/// `length` counts the characters of a text and the bytes of a BLOB; `reverse` turns a text round;
/// `unicode` is the code of the first character; `upper` and `lower` change the case of the whole
/// text.
pub proof fn texts_are_measured_and_turned(env: EnvV, name: Seq<char>, s: Seq<char>, b: Seq<u8>)
    ensures
        apply(env, Func::Length, name, seq![ValueV::Text(s)]) == Ok::<ValueV, ErrorV>(ValueV::Integer(s.len() as i64)),
        apply(env, Func::Length, name, seq![ValueV::Blob(b)]) == Ok::<ValueV, ErrorV>(ValueV::Integer(b.len() as i64)),
        apply(env, Func::Upper, name, seq![ValueV::Text(s)]) == Ok::<ValueV, ErrorV>(ValueV::Text(text_upper(s))),
        apply(env, Func::Lower, name, seq![ValueV::Text(s)]) == Ok::<ValueV, ErrorV>(ValueV::Text(text_lower(s))),
        s.len() > 0 ==> apply(env, Func::Unicode, name, seq![ValueV::Text(s)]) == Ok::<ValueV, ErrorV>(ValueV::Integer((s[0] as u32) as i64)),
        s.len() == 0 ==> apply(env, Func::Unicode, name, seq![ValueV::Text(s)]) == Ok::<ValueV, ErrorV>(ValueV::Null),
        ({
            let r = apply(env, Func::Reverse, name, seq![ValueV::Text(s)]);
            &&& r is Ok && r->Ok_0 is Text
            &&& r->Ok_0->Text_0.len() == s.len()
            &&& forall|i: int| 0 <= i < s.len() ==> #[trigger] r->Ok_0->Text_0[i] == s[s.len() - 1 - i]
        }),
{
}

proof fn lemma_hex(b: Seq<u8>)
    ensures
        hex_text(b).len() == 2 * b.len(),
        forall|i: int| 0 <= i < b.len() ==> hex_text(b)[2 * i] == hex_char(#[trigger] b[i] as int / 16, true) && hex_text(b)[2 * i + 1] == hex_char(b[i] as int % 16, true),
    decreases b.len(),
{
    if b.len() > 0 {
        lemma_hex(b.drop_last());
        assert forall|i: int| 0 <= i < b.len() implies hex_text(b)[2 * i] == hex_char(#[trigger] b[i] as int / 16, true) && hex_text(b)[2 * i + 1] == hex_char(b[i] as int % 16, true) by {
            if i < b.len() - 1 {
                assert(b.drop_last()[i] == b[i]);
            }
        }
    }
}

/// `hex` writes every byte as two digits of base sixteen, the high one first; those of a text are
/// its UTF-8.
pub proof fn hex_writes_two_digits_a_byte(env: EnvV, name: Seq<char>, s: Seq<char>, b: Seq<u8>, i: int)
    requires
        0 <= i < b.len(),
    ensures
        ({
            let r = apply(env, Func::Hex, name, seq![ValueV::Blob(b)]);
            &&& r is Ok && r->Ok_0 is Text
            &&& r->Ok_0->Text_0.len() == 2 * b.len()
            &&& r->Ok_0->Text_0[2 * i] == hex_char(b[i] as int / 16, true)
            &&& r->Ok_0->Text_0[2 * i + 1] == hex_char(b[i] as int % 16, true)
        }),
        apply(env, Func::Hex, name, seq![ValueV::Text(s)]) == apply(env, Func::Hex, name, seq![ValueV::Blob(encode_utf8(s))]),
{
    lemma_hex(b);
}

/// `substr` counts characters from one, from the end where the start is negative, and takes as
/// many as it is told and as there are.
pub proof fn substrings_are_counted_from_one(env: EnvV, name: Seq<char>, s: Seq<char>, start: i64, len: i64, i: int)
    ensures
        1 <= start <= s.len() && len >= 0 ==> {
            let r = apply(env, Func::Substr, name, seq![ValueV::Text(s), ValueV::Integer(start), ValueV::Integer(len)]);
            &&& r is Ok && r->Ok_0 is Text
            &&& r->Ok_0->Text_0.len() == (if len < s.len() - (start - 1) { len as int } else { s.len() - (start - 1) })
            &&& 0 <= i < r->Ok_0->Text_0.len() ==> r->Ok_0->Text_0[i] == s[start - 1 + i]
        },
        1 <= start <= s.len() ==> {
            let r = apply(env, Func::Substr, name, seq![ValueV::Text(s), ValueV::Integer(start)]);
            &&& r is Ok && r->Ok_0 is Text
            &&& r->Ok_0->Text_0.len() == s.len() - (start - 1)
            &&& 0 <= i < r->Ok_0->Text_0.len() ==> r->Ok_0->Text_0[i] == s[start - 1 + i]
        },
        -s.len() <= start < 0 && len >= 0 ==> {
            let r = apply(env, Func::Substr, name, seq![ValueV::Text(s), ValueV::Integer(start), ValueV::Integer(len)]);
            &&& r is Ok && r->Ok_0 is Text
            &&& r->Ok_0->Text_0.len() == (if len < -start { len as int } else { -start })
            &&& 0 <= i < r->Ok_0->Text_0.len() ==> r->Ok_0->Text_0[i] == s[s.len() + start + i]
        },
        -s.len() <= start < 0 ==> {
            let r = apply(env, Func::Substr, name, seq![ValueV::Text(s), ValueV::Integer(start)]);
            &&& r is Ok && r->Ok_0 is Text
            &&& r->Ok_0->Text_0.len() == -start
            &&& 0 <= i < r->Ok_0->Text_0.len() ==> r->Ok_0->Text_0[i] == s[s.len() + start + i]
        },
        start > s.len() ==> apply(env, Func::Substr, name, seq![ValueV::Text(s), ValueV::Integer(start)]) == Ok::<ValueV, ErrorV>(ValueV::Text(Seq::empty())),
{
    let two = seq![ValueV::Text(s), ValueV::Integer(start)];
    let three = seq![ValueV::Text(s), ValueV::Integer(start), ValueV::Integer(len)];
    assert(!any_null(two));
    assert(!any_null(three));
    if start > s.len() {
        assert(substring(s, start, None) =~= Seq::<char>::empty());
    }
}

proof fn lemma_first_at(s: Seq<char>, t: Seq<char>, i: int)
    requires
        0 <= i,
    ensures
        (match first_at(s, t, i) {
            Some(k) => i <= k && stands_at(s, t, k) && forall|m: int| i <= m < k ==> !#[trigger] stands_at(s, t, m),
            None => forall|m: int| i <= m ==> !#[trigger] stands_at(s, t, m),
        }),
    decreases s.len() + 1 - i,
{
    if i + t.len() <= s.len() && !stands_at(s, t, i) {
        lemma_first_at(s, t, i + 1);
    }
}

/// `instr` is where a text first stands in another, counted from one, and zero where it does not.
pub proof fn instr_finds_the_first(env: EnvV, name: Seq<char>, s: Seq<char>, t: Seq<char>)
    requires
        t.len() > 0,
        s.len() < i64::MAX,
    ensures
        ({
            let r = apply(env, Func::Instr, name, seq![ValueV::Text(s), ValueV::Text(t)]);
            &&& r is Ok && r->Ok_0 is Integer
            &&& r->Ok_0->Integer_0 == 0 ==> forall|m: int| 0 <= m ==> !#[trigger] stands_at(s, t, m)
            &&& r->Ok_0->Integer_0 != 0 ==> stands_at(s, t, r->Ok_0->Integer_0 - 1) && forall|m: int| 0 <= m < r->Ok_0->Integer_0 - 1 ==> !#[trigger] stands_at(s, t, m)
        }),
{
    lemma_first_at(s, t, 0);
}

proof fn lemma_replaced_none(s: Seq<char>, from: Seq<char>, to: Seq<char>, i: int, k: int)
    requires
        0 <= i <= k <= s.len(),
        forall|m: int| i <= m < k ==> !#[trigger] stands_at(s, from, m),
    ensures
        replaced(s, from, to, i) == s.subrange(i, k) + replaced(s, from, to, k),
    decreases k - i,
{
    if i < k {
        assert(!stands_at(s, from, i));
        lemma_replaced_none(s, from, to, i + 1, k);
        assert(seq![s[i]] + (s.subrange(i + 1, k) + replaced(s, from, to, k)) =~= s.subrange(i, k) + replaced(s, from, to, k));
    } else {
        assert(s.subrange(i, k) + replaced(s, from, to, k) =~= replaced(s, from, to, k));
    }
}

proof fn lemma_replaced_skip(s: Seq<char>, from: Seq<char>, to: Seq<char>, i: int, n: int)
    requires
        0 <= n <= i <= s.len(),
    ensures
        replaced(s, from, to, i) == replaced(s.skip(n), from, to, i - n),
    decreases s.len() - i,
{
    let t = s.skip(n);
    if i < s.len() {
        if i + from.len() <= s.len() {
            assert(s.subrange(i, i + from.len()) =~= t.subrange(i - n, i - n + from.len()));
        }
        assert(stands_at(s, from, i) == stands_at(t, from, i - n));
        assert(s[i] == t[i - n]);
        if from.len() > 0 && stands_at(s, from, i) {
            lemma_replaced_skip(s, from, to, i + from.len(), n);
        } else {
            lemma_replaced_skip(s, from, to, i + 1, n);
        }
    }
}

/// `replace` changes every place at which a text stands, from the left: up to the first such place
/// nothing changes, there the other text is put, and what follows is replaced likewise.
pub proof fn replacing_goes_from_the_left(env: EnvV, name: Seq<char>, s: Seq<char>, from: Seq<char>, to: Seq<char>, k: int)
    requires
        from.len() > 0,
    ensures
        (forall|m: int| 0 <= m ==> !#[trigger] stands_at(s, from, m)) ==> apply(env, Func::Replace, name, seq![ValueV::Text(s), ValueV::Text(from), ValueV::Text(to)]) == Ok::<ValueV, ErrorV>(ValueV::Text(s)),
        stands_at(s, from, k) && (forall|m: int| 0 <= m < k ==> !#[trigger] stands_at(s, from, m)) ==> {
            let all = apply(env, Func::Replace, name, seq![ValueV::Text(s), ValueV::Text(from), ValueV::Text(to)]);
            let rest = apply(env, Func::Replace, name, seq![ValueV::Text(s.skip(k + from.len())), ValueV::Text(from), ValueV::Text(to)]);
            &&& all is Ok && rest is Ok
            &&& all->Ok_0 == ValueV::Text(s.take(k) + to + rest->Ok_0->Text_0)
        },
        apply(env, Func::Replace, name, seq![ValueV::Text(s), ValueV::Text(Seq::empty()), ValueV::Text(to)]) == Ok::<ValueV, ErrorV>(ValueV::Text(s)),
{
    let a = seq![ValueV::Text(s), ValueV::Text(from), ValueV::Text(to)];
    assert(a[0] == ValueV::Text(s) && a[1] == ValueV::Text(from) && a[2] == ValueV::Text(to));
    if forall|m: int| 0 <= m ==> !#[trigger] stands_at(s, from, m) {
        lemma_replaced_none(s, from, to, 0, s.len() as int);
        assert(s.subrange(0, s.len() as int) + Seq::<char>::empty() =~= s);
    }
    if stands_at(s, from, k) && (forall|m: int| 0 <= m < k ==> !#[trigger] stands_at(s, from, m)) {
        lemma_replaced_none(s, from, to, 0, k);
        lemma_replaced_skip(s, from, to, k + from.len(), k + from.len());
        assert(s.subrange(0, k) =~= s.take(k));
        let rest = replaced(s.skip(k + from.len()), from, to, 0);
        assert(s.take(k) + (to + rest) =~= s.take(k) + to + rest);
    }
}

/// `lpad` and `rpad` bring a text to a length: a longer one loses its end; a shorter one is filled
/// up before or after it with the pad, again and again from its start.
pub proof fn pads_fill_up(env: EnvV, name: Seq<char>, s: Seq<char>, n: i64, pad: Seq<char>, i: int)
    requires
        0 <= n <= usize::MAX,
        pad.len() > 0,
        0 <= i < n,
    ensures
        ({
            let l = apply(env, Func::Lpad, name, seq![ValueV::Text(s), ValueV::Integer(n), ValueV::Text(pad)]);
            &&& l is Ok && l->Ok_0 is Text
            &&& l->Ok_0->Text_0.len() == n
            &&& l->Ok_0->Text_0[i] == (if n <= s.len() {
                s[i]
            } else if i < n - s.len() {
                pad[i % pad.len() as int]
            } else {
                s[i - (n - s.len())]
            })
        }),
        ({
            let r = apply(env, Func::Rpad, name, seq![ValueV::Text(s), ValueV::Integer(n), ValueV::Text(pad)]);
            &&& r is Ok && r->Ok_0 is Text
            &&& r->Ok_0->Text_0.len() == n
            &&& r->Ok_0->Text_0[i] == (if i < s.len() {
                s[i]
            } else {
                pad[(i - s.len()) % pad.len() as int]
            })
        }),
{
    let a = seq![ValueV::Text(s), ValueV::Integer(n), ValueV::Text(pad)];
    assert(a[0] == ValueV::Text(s) && a[1] == ValueV::Integer(n) && a[2] == ValueV::Text(pad));
    assert(!any_null(a));
}

proof fn lemma_joined_push(env: EnvV, name: Seq<char>, a: Seq<ValueV>, t: Seq<char>, i: int, sep: Seq<char>)
    requires
        0 <= i <= a.len(),
    ensures
        joined(env, name, a.push(ValueV::Text(t)), i, sep) == (match joined(env, name, a, i, sep) {
            Err(e) => Err(e),
            Ok(None) => Ok(Some(t)),
            Ok(Some(s)) => Ok(Some(s + sep + t)),
        }),
        joined(env, name, a.push(ValueV::Null), i, sep) == joined(env, name, a, i, sep),
    decreases a.len() - i,
{
    reveal_with_fuel(joined, 3);
    let b = a.push(ValueV::Text(t));
    let c = a.push(ValueV::Null);
    if i < a.len() {
        assert(b[i] == a[i] && c[i] == a[i]);
        lemma_joined_push(env, name, a, t, i + 1, sep);
        if let Ok(s) = crate::exec::functions::text_arg(env, name, a[i]) {
            if let Ok(Some(rest)) = joined(env, name, a, i + 1, sep) {
                assert(s + sep + (rest + sep + t) =~= s + sep + rest + sep + t);
            }
        }
    } else {
        assert(b[i] == ValueV::Text(t) && c[i] == ValueV::Null);
    }
}

/// `concat` puts the texts one after the other, `concat_ws` with its first argument between them;
/// both leave NULLs out.
pub proof fn concats_leave_nulls_out(env: EnvV, name: Seq<char>, a: Seq<ValueV>, sep: Seq<char>, t: Seq<char>, s: Seq<char>)
    requires
        a.len() > 0,
    ensures
        apply(env, Func::Concat, name, a) == Ok::<ValueV, ErrorV>(ValueV::Text(s)) ==> apply(env, Func::Concat, name, a.push(ValueV::Text(t))) == Ok::<ValueV, ErrorV>(ValueV::Text(s + t)) && apply(env, Func::Concat, name, a.push(ValueV::Null)) == Ok::<ValueV, ErrorV>(ValueV::Text(s)),
        apply(env, Func::Concat, name, seq![ValueV::Text(t)]) == Ok::<ValueV, ErrorV>(ValueV::Text(t)),
        apply(env, Func::Concat, name, seq![ValueV::Null]) == Ok::<ValueV, ErrorV>(ValueV::Text(Seq::empty())),
        apply(env, Func::ConcatWs, name, seq![ValueV::Text(sep), ValueV::Text(t)]) == Ok::<ValueV, ErrorV>(ValueV::Text(t)),
        a[0] == ValueV::Text(sep) && joined(env, name, a, 1, sep) == Ok::<Option<Seq<char>>, ErrorV>(Some(s)) ==> apply(env, Func::ConcatWs, name, a) == Ok::<ValueV, ErrorV>(ValueV::Text(s)) && apply(env, Func::ConcatWs, name, a.push(ValueV::Text(t))) == Ok::<ValueV, ErrorV>(ValueV::Text(s + sep + t)) && apply(env, Func::ConcatWs, name, a.push(ValueV::Null)) == Ok::<ValueV, ErrorV>(ValueV::Text(s)),
        a[0] is Null ==> apply(env, Func::ConcatWs, name, a) == Ok::<ValueV, ErrorV>(ValueV::Null),
{
    reveal_with_fuel(joined, 3);
    lemma_joined_push(env, name, a, t, 0, Seq::empty());
    lemma_joined_push(env, name, a, t, 1, sep);
    assert(a.push(ValueV::Text(t))[0] == a[0] && a.push(ValueV::Null)[0] == a[0]);
    assert(s + Seq::<char>::empty() + t =~= s + t);
    assert(Seq::<char>::empty() + t =~= t);
    let one = seq![ValueV::Text(t)];
    assert(one[0] == ValueV::Text(t));
    let two = seq![ValueV::Text(sep), ValueV::Text(t)];
    assert(two[0] == ValueV::Text(sep) && two[1] == ValueV::Text(t));
}

/// In a glob `*` stands for any text, `?` for exactly one character, a class for one character that
/// it accepts, and any other character for itself.
pub proof fn globs_match_piece_by_piece(p: Seq<char>, s: Seq<char>, c: char, d: char, any: Seq<char>, env: EnvV, name: Seq<char>)
    ensures
        apply(env, Func::Glob, name, seq![ValueV::Text(p), ValueV::Text(s)]) == Ok::<ValueV, ErrorV>(ValueV::Bool(glob(p, s))),
        glob(Seq::empty(), s) == (s.len() == 0),
        glob(p, s) ==> glob(seq!['*'] + p, any + s),
        glob(seq!['?'] + p, seq![d] + s) == glob(p, s),
        !glob(seq!['?'] + p, Seq::empty()),
        c != '*' && c != '?' && c != '[' ==> glob(seq![c] + p, seq![d] + s) == (c == d && glob(p, s)),
        c != '*' && c != '?' && c != '[' ==> !glob(seq![c] + p, Seq::empty()),
        class_rest(p).len() <= p.len() ==> glob(seq!['['] + p, seq![d] + s) == (class_accepts(p, d) && glob(class_rest(p), s)),
{
    assert((seq!['*'] + p).drop_first() =~= p);
    assert((seq!['?'] + p).drop_first() =~= p);
    assert((seq!['['] + p).drop_first() =~= p);
    assert((seq![c] + p).drop_first() =~= p);
    assert((seq![d] + s).drop_first() =~= s);
    assert((any + s).skip(any.len() as int) =~= s);
}

// --- choices ---

/// `coalesce` is the first argument that is not NULL, or NULL.
pub proof fn coalesce_takes_the_first_known(env: EnvV, name: Seq<char>, a: Seq<ValueV>, k: int)
    requires
        a.len() > 0,
    ensures
        0 <= k < a.len() && !(a[k] is Null) && (forall|i: int| 0 <= i < k ==> #[trigger] a[i] is Null) ==> apply(env, Func::Coalesce, name, a) == Ok::<ValueV, ErrorV>(a[k]),
        (forall|i: int| 0 <= i < a.len() ==> #[trigger] a[i] is Null) ==> apply(env, Func::Coalesce, name, a) == Ok::<ValueV, ErrorV>(ValueV::Null),
{
    lemma_first_known(a, k);
}

proof fn lemma_first_known(a: Seq<ValueV>, k: int)
    ensures
        0 <= k < a.len() && !(a[k] is Null) && (forall|i: int| 0 <= i < k ==> #[trigger] a[i] is Null) ==> first_known(a) == a[k],
        (forall|i: int| 0 <= i < a.len() ==> #[trigger] a[i] is Null) ==> first_known(a) == ValueV::Null,
    decreases a.len(),
{
    if a.len() > 0 {
        let rest = a.drop_first();
        lemma_first_known(rest, k - 1);
        if forall|i: int| 0 <= i < a.len() ==> #[trigger] a[i] is Null {
            assert(a[0] is Null);
            assert forall|i: int| 0 <= i < rest.len() implies #[trigger] rest[i] is Null by {
                assert(rest[i] == a[i + 1]);
            }
        }
        if 0 < k < a.len() && !(a[k] is Null) && (forall|i: int| 0 <= i < k ==> #[trigger] a[i] is Null) {
            assert(a[0] is Null);
            assert(rest[k - 1] == a[k]);
            assert forall|i: int| 0 <= i < k - 1 implies #[trigger] rest[i] is Null by {
                assert(rest[i] == a[i + 1]);
            }
        }
    }
}

/// `ifnull` is its second argument where the first is NULL, else the first; `nullif` is NULL where
/// its arguments are equal, else the first; `typeof` names the type of a value.
pub proof fn choices_are_made(env: EnvV, name: Seq<char>, v: ValueV, w: ValueV)
    ensures
        apply(env, Func::Ifnull, name, seq![v, w]) == Ok::<ValueV, ErrorV>(if v is Null { w } else { v }),
        value_order(env, v, w) is Ok ==> apply(env, Func::Nullif, name, seq![v, w]) == Ok::<ValueV, ErrorV>(if value_order(env, v, w) == Ok::<Option<Order>, ErrorV>(Some(Order::Equal)) { ValueV::Null } else { v }),
        apply(env, Func::Typeof, name, seq![v]) == Ok::<ValueV, ErrorV>(
            ValueV::Text(
                match v {
                    ValueV::Null => "NULL"@,
                    ValueV::Bool(_) => "BOOLEAN"@,
                    ValueV::Integer(_) => "INTEGER"@,
                    ValueV::Real(_) => "REAL"@,
                    ValueV::Text(_) => "TEXT"@,
                    ValueV::Blob(_) => "BLOB"@,
                },
            ),
        ),
{
}

/// `min` and `max` of two values are the one that comes first and the one that comes last; a NULL
/// makes them NULL, and of two that are equal the first is taken.
pub proof fn least_and_greatest_of_two(env: EnvV, name: Seq<char>, v: ValueV, w: ValueV)
    ensures
        v is Null || w is Null ==> apply(env, Func::Min, name, seq![v, w]) == Ok::<ValueV, ErrorV>(ValueV::Null) && apply(env, Func::Max, name, seq![v, w]) == Ok::<ValueV, ErrorV>(ValueV::Null),
        !(v is Null) && !(w is Null) && value_order(env, w, v) is Ok ==> {
            &&& apply(env, Func::Min, name, seq![v, w]) == Ok::<ValueV, ErrorV>(if value_order(env, w, v)->Ok_0 == Some(Order::Less) { w } else { v })
            &&& apply(env, Func::Max, name, seq![v, w]) == Ok::<ValueV, ErrorV>(if value_order(env, w, v)->Ok_0 == Some(Order::Greater) { w } else { v })
        },
{
    reveal_with_fuel(extreme, 3);
    let a = seq![v, w];
    assert(a[0] == v && a[1] == w);
    if !(v is Null) && !(w is Null) {
        assert(!any_null(a));
    }
}

// --- numbers ---

/// `abs` is the size of a number, `sign` its sign; integers stay as they are under `ceil` and
/// `floor`; the root of a negative number is NULL.
pub proof fn numbers_are_measured(env: EnvV, name: Seq<char>, n: i64, b: u64)
    ensures
        n != i64::MIN ==> apply(env, Func::Abs, name, seq![ValueV::Integer(n)]) == Ok::<ValueV, ErrorV>(ValueV::Integer((if n < 0 { -n } else { n as int }) as i64)),
        apply(env, Func::Abs, name, seq![ValueV::Integer(i64::MIN)]) is Err,
        ({
            let r = apply(env, Func::Abs, name, seq![ValueV::Real(b)]);
            r is Ok && r->Ok_0 is Real && rank(r->Ok_0->Real_0) == magnitude(b)
        }),
        apply(env, Func::Sign, name, seq![ValueV::Integer(n)]) == Ok::<ValueV, ErrorV>(ValueV::Integer(if n > 0 { 1 } else if n < 0 { (-1) as i64 } else { 0 })),
        !is_nan(b) ==> apply(env, Func::Sign, name, seq![ValueV::Real(b)]) == Ok::<ValueV, ErrorV>(ValueV::Integer(if rank(b) > 0 { 1 } else if rank(b) < 0 { (-1) as i64 } else { 0 })),
        apply(env, Func::Ceil, name, seq![ValueV::Integer(n)]) == Ok::<ValueV, ErrorV>(ValueV::Integer(n)),
        apply(env, Func::Floor, name, seq![ValueV::Integer(n)]) == Ok::<ValueV, ErrorV>(ValueV::Integer(n)),
        n < 0 ==> apply(env, Func::Sqrt, name, seq![ValueV::Integer(n)]) == Ok::<ValueV, ErrorV>(ValueV::Null),
        !is_nan(b) && rank(b) < 0 ==> apply(env, Func::Sqrt, name, seq![ValueV::Real(b)]) == Ok::<ValueV, ErrorV>(ValueV::Null),
{
    assert(magnitude(b) < 0x8000_0000_0000_0000);
}

/// The functions of reals give what is recorded for them on their arguments as reals, in their
/// order.
pub proof fn real_functions_are_looked_up(env: EnvV, name: Seq<char>, v: ValueV, w: ValueV, u: Unary, x: u64, y: u64, z: u64, d: i64)
    requires
        as_real(env, v, x),
        as_real(env, w, y),
    ensures
        recorded(env, RealOpV::Unary(u, x), z) ==> apply(env, Func::Math(u), name, seq![v]) == Ok::<ValueV, ErrorV>(ValueV::Real(z)),
        recorded(env, RealOpV::Unary(Unary::Log10, x), z) ==> apply(env, Func::Log, name, seq![v]) == Ok::<ValueV, ErrorV>(ValueV::Real(z)),
        recorded(env, RealOpV::Binary(Binary::Log, x, y), z) ==> apply(env, Func::Log, name, seq![v, w]) == Ok::<ValueV, ErrorV>(ValueV::Real(z)),
        recorded(env, RealOpV::Binary(Binary::Pow, x, y), z) ==> apply(env, Func::Pow, name, seq![v, w]) == Ok::<ValueV, ErrorV>(ValueV::Real(z)),
        recorded(env, RealOpV::Binary(Binary::Atan2, x, y), z) ==> apply(env, Func::Atan2, name, seq![v, w]) == Ok::<ValueV, ErrorV>(ValueV::Real(z)),
        v is Real && recorded(env, RealOpV::Unary(Unary::Ceil, x), z) ==> apply(env, Func::Ceil, name, seq![v]) == Ok::<ValueV, ErrorV>(ValueV::Real(z)),
        v is Real && recorded(env, RealOpV::Unary(Unary::Floor, x), z) ==> apply(env, Func::Floor, name, seq![v]) == Ok::<ValueV, ErrorV>(ValueV::Real(z)),
        v is Real && 0 <= d <= 15 && recorded(env, RealOpV::Round(x, d), z) ==> apply(env, Func::Round, name, seq![v, ValueV::Integer(d)]) == Ok::<ValueV, ErrorV>(ValueV::Real(z)),
        v is Real && recorded(env, RealOpV::Round(x, 0), z) ==> apply(env, Func::Round, name, seq![v]) == Ok::<ValueV, ErrorV>(ValueV::Real(z)),
        v is Integer ==> apply(env, Func::Round, name, seq![v]) == Ok::<ValueV, ErrorV>(ValueV::Real(x)),
{
    assert(!any_null(seq![v]));
    assert(!any_null(seq![v, ValueV::Integer(d)]));
}

// --- time ---

/// `now` is the time of the statement; `unixepoch` is the whole seconds of an instant, rounded
/// down; `date`, `time` and `datetime` write an instant in their forms, as `strftime` does in the
/// form that it is given.
pub proof fn instants_are_written(env: EnvV, name: Seq<char>, ms: i64, f: Seq<char>)
    ensures
        apply(env, Func::Now, name, Seq::empty()) == Ok::<ValueV, ErrorV>(ValueV::Integer(env.now)),
        ({
            let r = apply(env, Func::Unixepoch, name, seq![ValueV::Integer(ms)]);
            r is Ok && r->Ok_0 is Integer && r->Ok_0->Integer_0 * 1000 <= ms < (r->Ok_0->Integer_0 + 1) * 1000
        }),
        apply(env, Func::Date, name, seq![ValueV::Integer(ms)]) == Ok::<ValueV, ErrorV>(ValueV::Text(formatted("%Y-%m-%d"@, 0, instant_parts(ms)))),
        apply(env, Func::Time, name, seq![ValueV::Integer(ms)]) == Ok::<ValueV, ErrorV>(ValueV::Text(formatted("%H:%M:%S"@, 0, instant_parts(ms)))),
        apply(env, Func::Datetime, name, seq![ValueV::Integer(ms)]) == Ok::<ValueV, ErrorV>(ValueV::Text(formatted("%Y-%m-%d %H:%M:%S"@, 0, instant_parts(ms)))),
        apply(env, Func::Strftime, name, seq![ValueV::Text(f), ValueV::Integer(ms)]) == Ok::<ValueV, ErrorV>(ValueV::Text(formatted(f, 0, instant_parts(ms)))),
{
}

/// NULL goes through every function of one argument of this kind, and through those of more where
/// any argument is NULL.
pub proof fn null_goes_through(env: EnvV, name: Seq<char>, f: Func, a: Seq<ValueV>)
    ensures
        (f == Func::Upper || f == Func::Lower || f == Func::Length || f == Func::Trim || f == Func::Ltrim || f == Func::Rtrim || f == Func::Reverse || f == Func::Hex || f == Func::Unicode || f == Func::Abs || f == Func::Ceil || f == Func::Floor || f == Func::Sqrt || f == Func::Sign || f == Func::Round || f is Math || f == Func::Date || f == Func::Time || f == Func::Datetime || f == Func::Unixepoch || f == Func::Julianday)
            ==> apply(env, f, name, seq![ValueV::Null]) == Ok::<ValueV, ErrorV>(ValueV::Null),
        a.len() == 2 && (a[0] is Null || a[1] is Null) && (f == Func::Substr || f == Func::Instr || f == Func::Glob || f == Func::Strftime || f == Func::Round || f == Func::Pow || f == Func::Atan2 || f == Func::Log || f == Func::Mod || f == Func::Lpad || f == Func::Rpad)
            ==> apply(env, f, name, a) == Ok::<ValueV, ErrorV>(ValueV::Null),
        a.len() == 3 && (a[0] is Null || a[1] is Null || a[2] is Null) && (f == Func::Substr || f == Func::Replace || f == Func::Lpad || f == Func::Rpad) ==> apply(env, f, name, a) == Ok::<ValueV, ErrorV>(ValueV::Null),
{
    let one = seq![ValueV::Null];
    assert(one[0] is Null);
    assert(any_null(one));
    if a.len() >= 2 && (a[0] is Null || a[1] is Null) {
        assert(any_null(a));
    }
    if a.len() == 3 && a[2] is Null {
        assert(any_null(a));
    }
}

} // verus!
