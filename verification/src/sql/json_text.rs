//! A JSON value is read back from its text, which holds no white space outside strings.
use vstd::prelude::*;

#[allow(unused_imports)]
use crate::reals::{known_numeral, known_text, RealOpV, RealTableV};
#[allow(unused_imports)]
use crate::sql::json::{chars_at, digits_end, document, escape_at, escaped_char, escaped_chars, is_ws, items_at, items_text, json_text, members_at, members_text, number_at, number_end, quoted, string_at, value_at, word_at, ws_end, JsonV, Stop};
#[allow(unused_imports)]
use crate::text::{all_digits, hex_char, hex_value, i64_of, int_of, int_text, is_digit, lemma_nat_text, nat_text, numeral_round_trip};

verus! {

/// The text of every real in the value is a numeral with a point or an exponent, and denotes
/// that real.
pub open spec fn reals_read(j: JsonV, t: RealTableV) -> bool
    decreases j,
{
    match j {
        JsonV::Float(b) => match known_text(t, RealOpV::Show(b)) {
            Ok(x) => x.len() > 0 && (x[0] == '-' || is_digit(x[0])) && number_end(x, 0) == (x.len() as int, true)
                && known_numeral(t, x) == Ok::<Option<u64>, RealOpV>(Some(b)),
            Err(_) => false,
        },
        JsonV::Array(a) => forall|i: int| 0 <= i < a.len() ==> reals_read(#[trigger] a[i], t),
        JsonV::Object(o) => forall|i: int| 0 <= i < o.len() ==> reals_read((#[trigger] o[i]).1, t),
        _ => true,
    }
}

/// `x` stands at `i`.
spec fn stands(c: Seq<char>, i: int, x: Seq<char>) -> bool {
    0 <= i && i + x.len() <= c.len() && forall|k: int| 0 <= k < x.len() ==> c[i + k] == #[trigger] x[k]
}

/// A value that ends at `e` is not followed by more of it.
spec fn closes(c: Seq<char>, e: int) -> bool {
    e == c.len() || (0 <= e < c.len() && (c[e] == ',' || c[e] == ']' || c[e] == '}'))
}

proof fn lemma_stands_both(c: Seq<char>, i: int, x: Seq<char>, y: Seq<char>)
    requires
        stands(c, i, x + y),
    ensures
        stands(c, i, x),
        stands(c, i + x.len(), y),
{
    assert forall|k: int| 0 <= k < x.len() implies c[i + k] == #[trigger] x[k] by {
        assert((x + y)[k] == x[k]);
    }
    assert forall|k: int| 0 <= k < y.len() implies c[i + x.len() + k] == #[trigger] y[k] by {
        assert((x + y)[x.len() + k] == y[k]);
    }
}

// --- numbers ---

proof fn lemma_digits_in(c: Seq<char>, i: int, x: Seq<char>, a: int)
    requires
        stands(c, i, x),
        closes(c, i + x.len()),
        0 <= a <= x.len(),
    ensures
        digits_end(c, i + a) == i + digits_end(x, a),
        a <= digits_end(x, a) <= x.len(),
    decreases x.len() - a,
{
    if a < x.len() {
        assert(c[i + a] == x[a]);
        if is_digit(x[a]) {
            lemma_digits_in(c, i, x, a + 1);
        }
    }
}

proof fn lemma_number_in(c: Seq<char>, i: int, x: Seq<char>)
    requires
        stands(c, i, x),
        closes(c, i + x.len()),
        x.len() > 0,
    ensures
        number_end(c, i) == (i + number_end(x, 0).0, number_end(x, 0).1),
{
    assert(c[i + 0] == x[0]);
    let a: int = if x[0] == '-' { 1 } else { 0 };
    lemma_digits_in(c, i, x, a);
    let b = digits_end(x, a);
    if b < x.len() {
        assert(c[i + b] == x[b]);
    }
    let dot = b < x.len() && x[b] == '.';
    if dot {
        lemma_digits_in(c, i, x, b + 1);
    }
    let d = if dot { digits_end(x, b + 1) } else { b };
    if d < x.len() {
        assert(c[i + d] == x[d]);
    }
    if d < x.len() && (x[d] == 'e' || x[d] == 'E') {
        if d + 1 < x.len() {
            assert(c[i + (d + 1)] == x[d + 1]);
            lemma_digits_in(c, i, x, d + 2);
        }
        lemma_digits_in(c, i, x, d + 1);
    }
}

proof fn lemma_digits_whole(x: Seq<char>, a: int)
    requires
        0 <= a <= x.len(),
        forall|k: int| a <= k < x.len() ==> is_digit(#[trigger] x[k]),
    ensures
        digits_end(x, a) == x.len(),
    decreases x.len() - a,
{
    if a < x.len() {
        assert(is_digit(x[a]));
        lemma_digits_whole(x, a + 1);
    }
}

proof fn lemma_int_number(n: i64)
    ensures
        int_text(n as int).len() > 0,
        int_text(n as int)[0] == '-' || is_digit(int_text(n as int)[0]),
        number_end(int_text(n as int), 0) == (int_text(n as int).len() as int, false),
        i64_of(int_text(n as int)) == Some(n),
{
    let x = int_text(n as int);
    numeral_round_trip(n as int);
    if n < 0 {
        let y = nat_text((-n) as nat);
        lemma_nat_text((-n) as nat);
        assert forall|k: int| 1 <= k < x.len() implies is_digit(#[trigger] x[k]) by {
            assert(x[k] == y[k - 1]);
        }
        assert(x[0] == '-');
        lemma_digits_whole(x, 1);
    } else {
        lemma_nat_text(n as nat);
        assert(is_digit(x[0]));
        lemma_digits_whole(x, 0);
    }
}

// --- strings ---

proof fn lemma_escaped_first(s: Seq<char>)
    requires
        s.len() > 0,
    ensures
        escaped_chars(s) == escaped_char(s[0]) + escaped_chars(s.drop_first()),
    decreases s.len(),
{
    if s.len() == 1 {
        assert(s.drop_last() =~= Seq::empty());
        assert(s.drop_first() =~= Seq::empty());
        assert(escaped_chars(s) =~= escaped_char(s[0]) + escaped_chars(s.drop_first()));
    } else {
        let t = s.drop_last();
        lemma_escaped_first(t);
        assert(t.drop_first() =~= s.drop_first().drop_last());
        assert(s.drop_first().last() == s.last());
        assert(escaped_chars(s) =~= escaped_char(s[0]) + escaped_chars(s.drop_first()));
    }
}

proof fn lemma_escape_read(c: Seq<char>, i: int, ch: char)
    requires
        stands(c, i, escaped_char(ch)),
        escaped_char(ch).len() > 1,
    ensures
        c[i] == '\\',
        escape_at(c, i + 1) == Some((ch, i + escaped_char(ch).len())),
{
    let x = escaped_char(ch);
    assert(c[i + 0] == x[0]);
    assert(c[i + 1] == x[1]);
    if x.len() == 6 {
        let n = (ch as u32) as int;
        assert(c[i + 2] == x[2]);
        assert(c[i + 3] == x[3]);
        assert(c[i + 4] == x[4]);
        assert(c[i + 5] == x[5]);
        assert(0 <= n / 16 <= 1);
        assert(0 <= n % 16 <= 15);
        assert(hex_value(x[4]) == Some((n / 16) as nat));
        assert(hex_value(x[5]) == Some((n % 16) as nat));
        assert(n == (n / 16) * 16 + n % 16);
    }
}

proof fn lemma_chars_read(s: Seq<char>, c: Seq<char>, i: int)
    requires
        stands(c, i, escaped_chars(s) + seq!['"']),
    ensures
        chars_at(c, i) == Some((s, i + escaped_chars(s).len() + 1)),
    decreases s.len(),
{
    lemma_stands_both(c, i, escaped_chars(s), seq!['"']);
    if s.len() == 0 {
        assert(c[i + 0] == seq!['"'][0]);
        assert(s =~= Seq::empty());
    } else {
        let e = escaped_char(s[0]);
        let t = s.drop_first();
        lemma_escaped_first(s);
        assert(escaped_chars(s) + seq!['"'] =~= e + (escaped_chars(t) + seq!['"']));
        lemma_stands_both(c, i, e, escaped_chars(t) + seq!['"']);
        lemma_chars_read(t, c, i + e.len());
        assert(seq![s[0]] + t =~= s);
        if e.len() > 1 {
            lemma_escape_read(c, i, s[0]);
        } else {
            assert(c[i + 0] == e[0]);
        }
    }
}

proof fn lemma_string_read(s: Seq<char>, c: Seq<char>, i: int)
    requires
        stands(c, i, quoted(s)),
    ensures
        c[i] == '"',
        string_at(c, i) == Some((s, i + quoted(s).len())),
{
    let q = seq!['"'];
    assert(quoted(s) =~= q + (escaped_chars(s) + q));
    lemma_stands_both(c, i, q, escaped_chars(s) + q);
    assert(c[i + 0] == q[0]);
    lemma_chars_read(s, c, i + 1);
}

// --- values ---

proof fn lemma_first_char(j: JsonV, t: RealTableV)
    requires
        reals_read(j, t),
        json_text(j, t) is Ok,
    ensures
        json_text(j, t)->Ok_0.len() > 0,
        !is_ws(json_text(j, t)->Ok_0[0]),
        json_text(j, t)->Ok_0[0] != ']',
        json_text(j, t)->Ok_0[0] != '}',
{
    reveal_strlit("null");
    reveal_strlit("true");
    reveal_strlit("false");
    match j {
        JsonV::Int(n) => {
            lemma_int_number(n);
        },
        _ => {},
    }
}

proof fn lemma_items_first(a: Seq<JsonV>, t: RealTableV)
    requires
        a.len() > 0,
        items_text(a, t) is Ok,
    ensures
        json_text(a[0], t) is Ok,
        a.len() == 1 ==> items_text(a, t)->Ok_0 == json_text(a[0], t)->Ok_0,
        a.len() > 1 ==> items_text(a.drop_first(), t) is Ok && items_text(a, t)->Ok_0 == json_text(a[0], t)->Ok_0
            + seq![','] + items_text(a.drop_first(), t)->Ok_0,
    decreases a.len(),
{
    if a.len() > 1 {
        let b = a.drop_last();
        lemma_items_first(b, t);
        assert(a.drop_first().last() == a.last());
        assert(a.drop_first().drop_last() =~= b.drop_first());
        let y = json_text(a[0], t)->Ok_0;
        let z = json_text(a.last(), t)->Ok_0;
        if b.len() == 1 {
            assert(a.drop_first() =~= seq![a.last()]);
            assert(items_text(b.drop_first(), t) is Ok);
            assert(items_text(a.drop_first(), t) == Ok::<Seq<char>, RealOpV>(z));
            assert(items_text(a, t)->Ok_0 =~= y + seq![','] + z);
        } else {
            let r = items_text(b.drop_first(), t)->Ok_0;
            assert((y + seq![','] + r) + seq![','] + z =~= y + seq![','] + (r + seq![','] + z));
        }
    }
}

proof fn lemma_members_first(o: Seq<(Seq<char>, JsonV)>, t: RealTableV)
    requires
        o.len() > 0,
        members_text(o, t) is Ok,
    ensures
        json_text(o[0].1, t) is Ok,
        o.len() == 1 ==> members_text(o, t)->Ok_0 == quoted(o[0].0) + seq![':'] + json_text(o[0].1, t)->Ok_0,
        o.len() > 1 ==> members_text(o.drop_first(), t) is Ok && members_text(o, t)->Ok_0 == (quoted(o[0].0) + seq![
            ':',
        ] + json_text(o[0].1, t)->Ok_0) + seq![','] + members_text(o.drop_first(), t)->Ok_0,
    decreases o.len(),
{
    if o.len() > 1 {
        let b = o.drop_last();
        lemma_members_first(b, t);
        assert(o.drop_first().last() == o.last());
        assert(o.drop_first().drop_last() =~= b.drop_first());
        let y = quoted(o[0].0) + seq![':'] + json_text(o[0].1, t)->Ok_0;
        let z = quoted(o.last().0) + seq![':'] + json_text(o.last().1, t)->Ok_0;
        if b.len() == 1 {
            assert(o.drop_first() =~= seq![o.last()]);
            assert(members_text(b.drop_first(), t) is Ok);
            assert(members_text(o.drop_first(), t) == Ok::<Seq<char>, RealOpV>(z));
            assert(members_text(o, t)->Ok_0 =~= y + seq![','] + z);
        } else {
            let r = members_text(b.drop_first(), t)->Ok_0;
            assert((y + seq![','] + r) + seq![','] + z =~= y + seq![','] + (r + seq![','] + z));
        }
    }
}

proof fn lemma_value_read(j: JsonV, t: RealTableV, c: Seq<char>, i: int)
    requires
        reals_read(j, t),
        json_text(j, t) is Ok,
        stands(c, i, json_text(j, t)->Ok_0),
        closes(c, i + json_text(j, t)->Ok_0.len()),
    ensures
        value_at(c, i, t) == Ok::<(JsonV, int), Stop>((j, i + json_text(j, t)->Ok_0.len())),
    decreases j,
{
    let x = json_text(j, t)->Ok_0;
    lemma_first_char(j, t);
    assert(c[i + 0] == x[0]);
    assert(ws_end(c, i) == i);
    match j {
        JsonV::Null => {
            reveal_strlit("null");
            assert(c.subrange(i, i + 4) =~= "null"@);
        },
        JsonV::Bool(b) => {
            reveal_strlit("true");
            reveal_strlit("false");
            if b {
                assert(c.subrange(i, i + 4) =~= "true"@);
            } else {
                assert(c.subrange(i, i + 5) =~= "false"@);
            }
        },
        JsonV::Int(n) => {
            lemma_int_number(n);
            lemma_number_in(c, i, x);
            assert(c.subrange(i, i + x.len()) =~= x);
        },
        JsonV::Float(_) => {
            lemma_number_in(c, i, x);
            assert(c.subrange(i, i + x.len()) =~= x);
        },
        JsonV::Str(s) => {
            lemma_string_read(s, c, i);
        },
        JsonV::Array(a) => {
            let y = items_text(a, t)->Ok_0;
            assert(x =~= seq!['['] + (y + seq![']']));
            lemma_stands_both(c, i, seq!['['], y + seq![']']);
            lemma_stands_both(c, i + 1, y, seq![']']);
            assert(c[i + 1 + y.len() + 0] == seq![']'][0]);
            if a.len() == 0 {
                assert(a =~= Seq::empty());
                assert(ws_end(c, i + 1) == i + 1);
            } else {
                lemma_items_first(a, t);
                lemma_first_char(a[0], t);
                assert(y[0] == json_text(a[0], t)->Ok_0[0]);
                assert(c[i + 1 + 0] == y[0]);
                assert(ws_end(c, i + 1) == i + 1);
                lemma_items_read(a, t, c, i + 1);
            }
        },
        JsonV::Object(o) => {
            let y = members_text(o, t)->Ok_0;
            assert(x =~= seq!['{'] + (y + seq!['}']));
            lemma_stands_both(c, i, seq!['{'], y + seq!['}']);
            lemma_stands_both(c, i + 1, y, seq!['}']);
            assert(c[i + 1 + y.len() + 0] == seq!['}'][0]);
            if o.len() == 0 {
                assert(o =~= Seq::empty());
                assert(ws_end(c, i + 1) == i + 1);
            } else {
                lemma_members_first(o, t);
                assert(y[0] == '"');
                assert(c[i + 1 + 0] == y[0]);
                assert(ws_end(c, i + 1) == i + 1);
                lemma_members_read(o, t, c, i + 1);
            }
        },
    }
}

proof fn lemma_items_read(a: Seq<JsonV>, t: RealTableV, c: Seq<char>, i: int)
    requires
        a.len() > 0,
        forall|k: int| 0 <= k < a.len() ==> reals_read(#[trigger] a[k], t),
        items_text(a, t) is Ok,
        stands(c, i, items_text(a, t)->Ok_0 + seq![']']),
    ensures
        items_at(c, i, t) == Ok::<(Seq<JsonV>, int), Stop>((a, i + items_text(a, t)->Ok_0.len() + 1)),
    decreases a,
{
    let x = items_text(a, t)->Ok_0;
    lemma_items_first(a, t);
    let y = json_text(a[0], t)->Ok_0;
    let p = i + y.len();
    lemma_first_char(a[0], t);
    if a.len() == 1 {
        lemma_stands_both(c, i, y, seq![']']);
        assert(c[p + 0] == seq![']'][0]);
        lemma_value_read(a[0], t, c, i);
        assert(ws_end(c, p) == p);
        assert(a =~= seq![a[0]]);
    } else {
        let b = a.drop_first();
        let r = items_text(b, t)->Ok_0;
        assert(x + seq![']'] =~= y + (seq![','] + (r + seq![']'])));
        lemma_stands_both(c, i, y, seq![','] + (r + seq![']']));
        lemma_stands_both(c, p, seq![','], r + seq![']']);
        assert(c[p + 0] == seq![','][0]);
        lemma_value_read(a[0], t, c, i);
        assert(ws_end(c, p) == p);
        assert forall|k: int| 0 <= k < b.len() implies reals_read(#[trigger] b[k], t) by {
            assert(b[k] == a[k + 1]);
        }
        lemma_items_read(b, t, c, p + 1);
        assert(seq![a[0]] + b =~= a);
    }
}

proof fn lemma_members_read(o: Seq<(Seq<char>, JsonV)>, t: RealTableV, c: Seq<char>, i: int)
    requires
        o.len() > 0,
        forall|k: int| 0 <= k < o.len() ==> reals_read((#[trigger] o[k]).1, t),
        members_text(o, t) is Ok,
        stands(c, i, members_text(o, t)->Ok_0 + seq!['}']),
    ensures
        members_at(c, i, t) == Ok::<(Seq<(Seq<char>, JsonV)>, int), Stop>(
            (o, i + members_text(o, t)->Ok_0.len() + 1),
        ),
    decreases o,
{
    let x = members_text(o, t)->Ok_0;
    lemma_members_first(o, t);
    let key = quoted(o[0].0);
    let y = json_text(o[0].1, t)->Ok_0;
    let m = key + seq![':'] + y;
    let p = i + key.len();
    let e = p + 1 + y.len();
    let b = o.drop_first();
    let close = seq!['}'];
    let tail = if o.len() == 1 {
        close
    } else {
        seq![','] + (members_text(b, t)->Ok_0 + close)
    };
    assert(x + close =~= key + (seq![':'] + (y + tail)));
    lemma_stands_both(c, i, key, seq![':'] + (y + tail));
    lemma_stands_both(c, p, seq![':'], y + tail);
    lemma_stands_both(c, p + 1, y, tail);
    lemma_string_read(o[0].0, c, i);
    assert(c[p + 0] == seq![':'][0]);
    assert(c[e + 0] == tail[0]);
    assert(ws_end(c, i) == i);
    assert(ws_end(c, p) == p);
    lemma_first_char(o[0].1, t);
    lemma_value_read(o[0].1, t, c, p + 1);
    assert(ws_end(c, e) == e);
    if o.len() == 1 {
        assert(o =~= seq![(o[0].0, o[0].1)]);
    } else {
        lemma_stands_both(c, e, seq![','], members_text(b, t)->Ok_0 + close);
        assert forall|k: int| 0 <= k < b.len() implies reals_read((#[trigger] b[k]).1, t) by {
            assert(b[k] == o[k + 1]);
        }
        lemma_members_read(b, t, c, e + 1);
        assert(seq![(o[0].0, o[0].1)] + b =~= o);
    }
}

/// The text of a value reads back as that value: integers stay integers, reals stay reals,
/// and the members of an object keep their order. The reals of the value are those that are
/// shown as numerals, as the finite ones are.
pub proof fn json_round_trip(j: JsonV, t: RealTableV)
    requires
        reals_read(j, t),
        json_text(j, t) is Ok,
    ensures
        document(json_text(j, t)->Ok_0, t) == Ok::<JsonV, Stop>(j),
{
    let c = json_text(j, t)->Ok_0;
    lemma_first_char(j, t);
    assert(ws_end(c, 0) == 0);
    lemma_value_read(j, t, c, 0);
    assert(ws_end(c, c.len() as int) == c.len());
}

// --- no white space ---

/// Whether the character behind the first `i` ones stands inside a string, and whether a
/// backslash stands right before it there.
pub open spec fn inside(c: Seq<char>, i: int) -> (bool, bool)
    decreases i,
{
    if i <= 0 || i > c.len() {
        (false, false)
    } else {
        let (string, escaped) = inside(c, i - 1);
        let x = c[i - 1];
        if !string {
            (x == '"', false)
        } else if escaped {
            (true, false)
        } else {
            (x != '"', x == '\\')
        }
    }
}

/// No white space stands outside a string, and every string ends.
pub open spec fn compact(c: Seq<char>) -> bool {
    &&& inside(c, c.len() as int) == (false, false)
    &&& forall|i: int| 0 <= i < c.len() && is_ws(#[trigger] c[i]) ==> inside(c, i).0
}

proof fn lemma_inside_prefix(a: Seq<char>, b: Seq<char>, i: int)
    requires
        0 <= i <= a.len(),
    ensures
        inside(a + b, i) == inside(a, i),
    decreases i,
{
    if i > 0 {
        lemma_inside_prefix(a, b, i - 1);
        assert((a + b)[i - 1] == a[i - 1]);
    }
}

proof fn lemma_inside_behind(a: Seq<char>, b: Seq<char>, i: int)
    requires
        inside(a, a.len() as int) == (false, false),
        0 <= i <= b.len(),
    ensures
        inside(a + b, a.len() + i) == inside(b, i),
    decreases i,
{
    if i == 0 {
        lemma_inside_prefix(a, b, a.len() as int);
    } else {
        lemma_inside_behind(a, b, i - 1);
        assert((a + b)[a.len() + i - 1] == b[i - 1]);
    }
}

proof fn lemma_compact_both(a: Seq<char>, b: Seq<char>)
    requires
        compact(a),
        compact(b),
    ensures
        compact(a + b),
{
    lemma_inside_behind(a, b, b.len() as int);
    assert forall|i: int| 0 <= i < (a + b).len() && is_ws(#[trigger] (a + b)[i]) implies inside(a + b, i).0 by {
        if i < a.len() {
            lemma_inside_prefix(a, b, i);
            assert(is_ws(a[i]));
        } else {
            lemma_inside_behind(a, b, i - a.len());
            assert(is_ws(b[i - a.len()]));
        }
    }
}

/// A text without quotes and white space.
proof fn lemma_compact_plain(c: Seq<char>, i: int)
    requires
        0 <= i <= c.len(),
        forall|k: int| 0 <= k < c.len() ==> #[trigger] c[k] != '"' && !is_ws(c[k]),
    ensures
        inside(c, i) == (false, false),
        i == c.len() ==> compact(c),
    decreases i,
{
    if i > 0 {
        lemma_compact_plain(c, i - 1);
        assert(c[i - 1] != '"');
    }
}

proof fn lemma_inside_string(s: Seq<char>)
    ensures
        ({
            let c = seq!['"'] + escaped_chars(s);
            &&& inside(c, c.len() as int) == (true, false)
            &&& forall|i: int| 1 <= i <= c.len() ==> #[trigger] inside(c, i).0
        }),
    decreases s.len(),
{
    let c = seq!['"'] + escaped_chars(s);
    if s.len() == 0 {
        assert(c =~= seq!['"']);
        reveal_with_fuel(inside, 2);
        assert forall|i: int| 1 <= i <= c.len() implies #[trigger] inside(c, i).0 by {
            assert(i == 1);
        }
    } else {
        let t = s.drop_last();
        let b = seq!['"'] + escaped_chars(t);
        let e = escaped_char(s.last());
        let n = b.len() as int;
        lemma_inside_string(t);
        assert(c =~= b + e);
        lemma_inside_prefix(b, e, n);
        assert(c[n] == e[0]);
        assert(inside(c, n) == (true, false));
        if e.len() == 1 {
            assert(e[0] != '"' && e[0] != '\\');
            assert(inside(c, n + 1) == (true, false));
        } else {
            assert(c[n + 1] == e[1]);
            assert(inside(c, n + 1) == (true, true));
            assert(inside(c, n + 2) == (true, false));
            if e.len() == 6 {
                let d = (s.last() as u32) as int;
                assert(c[n + 2] == e[2] && c[n + 3] == e[3] && c[n + 4] == e[4] && c[n + 5] == e[5]);
                assert(0 <= d / 16 <= 1 && 0 <= d % 16 <= 15);
                assert(hex_value(e[4]) is Some && hex_value(e[5]) is Some);
                assert(inside(c, n + 3) == (true, false));
                assert(inside(c, n + 4) == (true, false));
                assert(inside(c, n + 5) == (true, false));
                assert(inside(c, n + 6) == (true, false));
            }
        }
        assert forall|i: int| 1 <= i <= c.len() implies #[trigger] inside(c, i).0 by {
            if i <= n {
                lemma_inside_prefix(b, e, i);
            } else {
                assert(i == n + 1 || i == n + 2 || i == n + 3 || i == n + 4 || i == n + 5 || i == n + 6);
            }
        }
    }
}

proof fn lemma_compact_string(s: Seq<char>)
    ensures
        compact(quoted(s)),
{
    let b = seq!['"'] + escaped_chars(s);
    let q = seq!['"'];
    let c = b + q;
    let n = b.len() as int;
    lemma_inside_string(s);
    assert(quoted(s) =~= c);
    lemma_inside_prefix(b, q, n);
    assert(c[n] == '"');
    assert(inside(c, n + 1) == (false, false));
    assert forall|i: int| 0 <= i < c.len() && is_ws(#[trigger] c[i]) implies inside(c, i).0 by {
        if i == 0 {
            assert(c[0] == '"');
        } else if i <= n {
            lemma_inside_prefix(b, q, i);
            assert(inside(b, i).0);
        }
    }
}

/// The text of every real in the value has neither quotes nor white space.
pub open spec fn reals_plain(j: JsonV, t: RealTableV) -> bool
    decreases j,
{
    match j {
        JsonV::Float(b) => match known_text(t, RealOpV::Show(b)) {
            Ok(x) => forall|k: int| 0 <= k < x.len() ==> #[trigger] x[k] != '"' && !is_ws(x[k]),
            Err(_) => true,
        },
        JsonV::Array(a) => forall|i: int| 0 <= i < a.len() ==> reals_plain(#[trigger] a[i], t),
        JsonV::Object(o) => forall|i: int| 0 <= i < o.len() ==> reals_plain((#[trigger] o[i]).1, t),
        _ => true,
    }
}

/// The text of a value holds no white space outside its strings.
pub proof fn json_text_is_compact(j: JsonV, t: RealTableV)
    requires
        reals_plain(j, t),
        json_text(j, t) is Ok,
    ensures
        compact(json_text(j, t)->Ok_0),
    decreases j,
{
    let x = json_text(j, t)->Ok_0;
    match j {
        JsonV::Null => {
            reveal_strlit("null");
            lemma_compact_plain(x, x.len() as int);
        },
        JsonV::Bool(_) => {
            reveal_strlit("true");
            reveal_strlit("false");
            lemma_compact_plain(x, x.len() as int);
        },
        JsonV::Int(n) => {
            let y = nat_text((if n < 0 { -(n as int) } else { n as int }) as nat);
            lemma_nat_text((if n < 0 { -(n as int) } else { n as int }) as nat);
            assert forall|k: int| 0 <= k < x.len() implies #[trigger] x[k] != '"' && !is_ws(x[k]) by {
                if n < 0 {
                    if k > 0 {
                        assert(x[k] == y[k - 1]);
                        assert(is_digit(y[k - 1]));
                    }
                } else {
                    assert(is_digit(y[k]));
                }
            }
            lemma_compact_plain(x, x.len() as int);
        },
        JsonV::Float(_) => {
            lemma_compact_plain(x, x.len() as int);
        },
        JsonV::Str(s) => {
            lemma_compact_string(s);
        },
        JsonV::Array(a) => {
            lemma_items_compact(a, t);
            let y = items_text(a, t)->Ok_0;
            lemma_compact_plain(seq!['['], 1);
            lemma_compact_plain(seq![']'], 1);
            lemma_compact_both(seq!['['], y);
            lemma_compact_both(seq!['['] + y, seq![']']);
        },
        JsonV::Object(o) => {
            lemma_members_compact(o, t);
            let y = members_text(o, t)->Ok_0;
            lemma_compact_plain(seq!['{'], 1);
            lemma_compact_plain(seq!['}'], 1);
            lemma_compact_both(seq!['{'], y);
            lemma_compact_both(seq!['{'] + y, seq!['}']);
        },
    }
}

proof fn lemma_items_compact(a: Seq<JsonV>, t: RealTableV)
    requires
        forall|i: int| 0 <= i < a.len() ==> reals_plain(#[trigger] a[i], t),
        items_text(a, t) is Ok,
    ensures
        compact(items_text(a, t)->Ok_0),
    decreases a,
{
    if a.len() == 0 {
        lemma_compact_plain(Seq::empty(), 0);
    } else {
        let b = a.drop_last();
        assert forall|i: int| 0 <= i < b.len() implies reals_plain(#[trigger] b[i], t) by {
            assert(b[i] == a[i]);
        }
        lemma_items_compact(b, t);
        assert(reals_plain(a[a.len() - 1], t));
        json_text_is_compact(a.last(), t);
        let x = items_text(b, t)->Ok_0;
        lemma_compact_plain(seq![','], 1);
        lemma_compact_both(x, seq![',']);
        lemma_compact_both(x + seq![','], json_text(a.last(), t)->Ok_0);
    }
}

proof fn lemma_members_compact(o: Seq<(Seq<char>, JsonV)>, t: RealTableV)
    requires
        forall|i: int| 0 <= i < o.len() ==> reals_plain((#[trigger] o[i]).1, t),
        members_text(o, t) is Ok,
    ensures
        compact(members_text(o, t)->Ok_0),
    decreases o,
{
    if o.len() == 0 {
        lemma_compact_plain(Seq::empty(), 0);
    } else {
        let b = o.drop_last();
        assert forall|i: int| 0 <= i < b.len() implies reals_plain((#[trigger] b[i]).1, t) by {
            assert(b[i] == o[i]);
        }
        lemma_members_compact(b, t);
        assert(reals_plain(o[o.len() - 1].1, t));
        json_text_is_compact(o.last().1, t);
        let x = members_text(b, t)->Ok_0;
        let q = quoted(o.last().0);
        let y = json_text(o.last().1, t)->Ok_0;
        lemma_compact_string(o.last().0);
        lemma_compact_plain(seq![':'], 1);
        lemma_compact_plain(seq![','], 1);
        lemma_compact_both(q, seq![':']);
        lemma_compact_both(q + seq![':'], y);
        lemma_compact_both(x, seq![',']);
        lemma_compact_both(x + seq![','], q + seq![':'] + y);
    }
}

} // verus!
