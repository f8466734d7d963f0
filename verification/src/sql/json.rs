//! JSON documents: parsing, compact serialisation and paths such as `$.a.b[0]`.
use vstd::prelude::*;
use vstd::string::StringExecFns;

use crate::reals::{RealOp, RealOpV, RealTable, RealTableV};
#[allow(unused_imports)]
use crate::reals::{known_numeral, known_text};
use crate::text::{
    chars_of, char_of_code, hex_digit, hex_of, i64_text, parse_i64, parse_usize, push_chars, str_eq,
    string_of, string_range,
};
#[allow(unused_imports)]
use crate::text::{hex_char, hex_value, i64_of, int_text, is_digit, is_scalar_value, usize_of};

verus! {

/// A JSON value. Objects keep the order of their members; a real is held as its
/// binary64 bit pattern.
#[derive(Debug, PartialEq)]
pub enum Json {
    Null,
    Bool(bool),
    Int(i64),
    Float(u64),
    Str(String),
    Array(Vec<Json>),
    Object(Vec<(String, Json)>),
}

#[verifier::ext_equal]
pub enum JsonV {
    Null,
    Bool(bool),
    Int(i64),
    Float(u64),
    Str(Seq<char>),
    Array(Seq<JsonV>),
    Object(Seq<(Seq<char>, JsonV)>),
}

pub open spec fn json_v(j: Json) -> JsonV
    decreases j,
{
    match j {
        Json::Null => JsonV::Null,
        Json::Bool(b) => JsonV::Bool(b),
        Json::Int(n) => JsonV::Int(n),
        Json::Float(b) => JsonV::Float(b),
        Json::Str(s) => JsonV::Str(s@),
        Json::Array(a) => JsonV::Array(array_v(a@)),
        Json::Object(o) => JsonV::Object(object_v(o@)),
    }
}

pub open spec fn array_v(s: Seq<Json>) -> Seq<JsonV>
    decreases s,
{
    Seq::new(
        s.len(),
        |i: int|
            if 0 <= i < s.len() {
                json_v(s[i])
            } else {
                arbitrary()
            },
    )
}

pub open spec fn object_v(s: Seq<(String, Json)>) -> Seq<(Seq<char>, JsonV)>
    decreases s,
{
    Seq::new(
        s.len(),
        |i: int|
            if 0 <= i < s.len() {
                (s[i].0@, json_v(s[i].1))
            } else {
                arbitrary()
            },
    )
}

impl View for Json {
    type V = JsonV;

    open spec fn view(&self) -> JsonV {
        json_v(*self)
    }
}

impl Clone for Json {
    fn clone(&self) -> (r: Self)
        ensures
            r@ == self@,
    {
        clone_json(self)
    }
}

pub fn clone_json(j: &Json) -> (r: Json)
    ensures
        r@ == j@,
    decreases j,
{
    match j {
        Json::Null => Json::Null,
        Json::Bool(b) => Json::Bool(*b),
        Json::Int(n) => Json::Int(*n),
        Json::Float(b) => Json::Float(*b),
        Json::Str(s) => Json::Str(s.clone()),
        Json::Array(a) => Json::Array(clone_array(a)),
        Json::Object(o) => Json::Object(clone_object(o)),
    }
}

fn clone_array(v: &Vec<Json>) -> (r: Vec<Json>)
    ensures
        array_v(r@) == array_v(v@),
    decreases v,
{
    let mut out: Vec<Json> = Vec::new();
    let n: usize = v.len();
    for i in 0..n
        invariant
            n == v@.len(),
            out@.len() == i,
            forall|k: int| 0 <= k < i ==> json_v(#[trigger] out@[k]) == json_v(v@[k]),
    {
        out.push(clone_json(&v[i]));
    }
    assert(array_v(out@) =~= array_v(v@));
    out
}

fn clone_object(v: &Vec<(String, Json)>) -> (r: Vec<(String, Json)>)
    ensures
        object_v(r@) == object_v(v@),
    decreases v,
{
    let mut out: Vec<(String, Json)> = Vec::new();
    let n: usize = v.len();
    for i in 0..n
        invariant
            n == v@.len(),
            out@.len() == i,
            forall|k: int|
                0 <= k < i ==> (#[trigger] out@[k]).0@ == v@[k].0@ && json_v(out@[k].1) == json_v(
                    v@[k].1,
                ),
    {
        assert(decreases_to!(v@[i as int] => v@[i as int].1));
        out.push((v[i].0.clone(), clone_json(&v[i].1)));
    }
    assert(object_v(out@) =~= object_v(v@));
    out
}

/// The name of the type of a JSON value.
pub open spec fn json_kind(j: JsonV) -> Seq<char> {
    match j {
        JsonV::Null => "null"@,
        JsonV::Bool(true) => "true"@,
        JsonV::Bool(false) => "false"@,
        JsonV::Int(_) => "integer"@,
        JsonV::Float(_) => "real"@,
        JsonV::Str(_) => "text"@,
        JsonV::Array(_) => "array"@,
        JsonV::Object(_) => "object"@,
    }
}

pub fn kind_name(j: &Json) -> (r: &'static str)
    ensures
        r@ == json_kind(j@),
{
    match j {
        Json::Null => "null",
        Json::Bool(b) => if *b {
            "true"
        } else {
            "false"
        },
        Json::Int(_) => "integer",
        Json::Float(_) => "real",
        Json::Str(_) => "text",
        Json::Array(_) => "array",
        Json::Object(_) => "object",
    }
}

// --- parsing ---

/// Why there is no value: the text is not JSON (`None`), or the outcome of a
/// computation on reals is missing.
pub type Stop = Option<RealOpV>;

pub open spec fn is_ws(c: char) -> bool {
    c == ' ' || c == '\t' || c == '\n' || c == '\r'
}

/// The first position from `i` on that is not white space.
pub open spec fn ws_end(c: Seq<char>, i: int) -> int
    decreases c.len() - i,
{
    if 0 <= i < c.len() && is_ws(c[i]) {
        ws_end(c, i + 1)
    } else {
        i
    }
}

pub open spec fn digits_end(c: Seq<char>, i: int) -> int
    decreases c.len() - i,
{
    if 0 <= i < c.len() && is_digit(c[i]) {
        digits_end(c, i + 1)
    } else {
        i
    }
}

/// `word` stands at `i`.
pub open spec fn word_at(c: Seq<char>, i: int, word: Seq<char>) -> bool {
    i + word.len() <= c.len() && c.subrange(i, i + word.len()) == word
}

/// The character that the escape at `i` (behind the backslash) stands for, and the
/// position behind it.
pub open spec fn escape_at(c: Seq<char>, i: int) -> Option<(char, int)> {
    if i >= c.len() {
        None
    } else if c[i] == '"' || c[i] == '\\' || c[i] == '/' {
        Some((c[i], i + 1))
    } else if c[i] == 'n' {
        Some(('\n', i + 1))
    } else if c[i] == 't' {
        Some(('\t', i + 1))
    } else if c[i] == 'r' {
        Some(('\r', i + 1))
    } else if c[i] == 'b' {
        Some(('\u{8}', i + 1))
    } else if c[i] == 'f' {
        Some(('\u{c}', i + 1))
    } else if c[i] == 'u' {
        if i + 5 > c.len() {
            None
        } else {
            match (hex_value(c[i + 1]), hex_value(c[i + 2]), hex_value(c[i + 3]), hex_value(
                c[i + 4],
            )) {
                (Some(a), Some(b), Some(d), Some(e)) => {
                    let code = ((a * 16 + b) * 16 + d) * 16 + e;
                    if is_scalar_value(code as int) {
                        Some((code as char, i + 5))
                    } else {
                        None
                    }
                },
                _ => None,
            }
        }
    } else {
        None
    }
}

/// The characters of a string from `i` on, up to its closing quote.
pub open spec fn chars_at(c: Seq<char>, i: int) -> Option<(Seq<char>, int)>
    decreases c.len() - i,
{
    if i < 0 || i >= c.len() {
        None
    } else if c[i] == '"' {
        Some((Seq::empty(), i + 1))
    } else if c[i] == '\\' {
        match escape_at(c, i + 1) {
            None => None,
            Some((ch, p)) => match chars_at(c, p) {
                None => None,
                Some((rest, q)) => Some((seq![ch] + rest, q)),
            },
        }
    } else {
        match chars_at(c, i + 1) {
            None => None,
            Some((rest, q)) => Some((seq![c[i]] + rest, q)),
        }
    }
}

/// The string whose opening quote is at `i`.
pub open spec fn string_at(c: Seq<char>, i: int) -> Option<(Seq<char>, int)> {
    if 0 <= i < c.len() && c[i] == '"' {
        chars_at(c, i + 1)
    } else {
        None
    }
}

/// End of the number at `i`, and whether it is written as a real.
pub open spec fn number_end(c: Seq<char>, i: int) -> (int, bool) {
    let a = if i < c.len() && c[i] == '-' {
        i + 1
    } else {
        i
    };
    let b = digits_end(c, a);
    let dot = b < c.len() && c[b] == '.';
    let d = if dot {
        digits_end(c, b + 1)
    } else {
        b
    };
    let exp = d < c.len() && (c[d] == 'e' || c[d] == 'E');
    let e = if exp {
        if d + 1 < c.len() && (c[d + 1] == '+' || c[d + 1] == '-') {
            digits_end(c, d + 2)
        } else {
            digits_end(c, d + 1)
        }
    } else {
        d
    };
    (e, dot || exp)
}

/// The number at `i`.
pub open spec fn number_at(c: Seq<char>, i: int, t: RealTableV) -> Result<(JsonV, int), Stop> {
    let (end, frac) = number_end(c, i);
    let text = c.subrange(i, end);
    if !frac && i64_of(text) is Some {
        Ok((JsonV::Int(i64_of(text)->0), end))
    } else {
        match known_numeral(t, text) {
            Ok(Some(b)) => Ok((JsonV::Float(b), end)),
            Ok(None) => Err(None),
            Err(op) => Err(Some(op)),
        }
    }
}

/// The value at `i`, white space before it skipped, and the position behind it.
pub open spec fn value_at(c: Seq<char>, i: int, t: RealTableV) -> Result<(JsonV, int), Stop>
    decreases c.len() - i, 1nat,
{
    let k = ws_end(c, i);
    if !(0 <= i <= k < c.len()) {
        Err(None)
    } else if c[k] == '{' {
        let m = ws_end(c, k + 1);
        if k + 1 <= m < c.len() && c[m] == '}' {
            Ok((JsonV::Object(Seq::empty()), m + 1))
        } else if k + 1 <= m <= c.len() {
            match members_at(c, m, t) {
                Err(s) => Err(s),
                Ok((o, p)) => Ok((JsonV::Object(o), p)),
            }
        } else {
            Err(None)
        }
    } else if c[k] == '[' {
        let m = ws_end(c, k + 1);
        if k + 1 <= m < c.len() && c[m] == ']' {
            Ok((JsonV::Array(Seq::empty()), m + 1))
        } else if k + 1 <= m <= c.len() {
            match items_at(c, m, t) {
                Err(s) => Err(s),
                Ok((a, p)) => Ok((JsonV::Array(a), p)),
            }
        } else {
            Err(None)
        }
    } else if c[k] == '"' {
        match string_at(c, k) {
            None => Err(None),
            Some((s, p)) => Ok((JsonV::Str(s), p)),
        }
    } else if c[k] == 't' {
        if word_at(c, k, "true"@) {
            Ok((JsonV::Bool(true), k + 4))
        } else {
            Err(None)
        }
    } else if c[k] == 'f' {
        if word_at(c, k, "false"@) {
            Ok((JsonV::Bool(false), k + 5))
        } else {
            Err(None)
        }
    } else if c[k] == 'n' {
        if word_at(c, k, "null"@) {
            Ok((JsonV::Null, k + 4))
        } else {
            Err(None)
        }
    } else if c[k] == '-' || is_digit(c[k]) {
        number_at(c, k, t)
    } else {
        Err(None)
    }
}

/// The items of an array from `i` on, up to its closing bracket.
pub open spec fn items_at(c: Seq<char>, i: int, t: RealTableV) -> Result<(Seq<JsonV>, int), Stop>
    decreases c.len() - i, 2nat,
{
    match value_at(c, i, t) {
        Err(s) => Err(s),
        Ok((v, p)) => {
            let k = ws_end(c, p);
            if !(i < p <= k < c.len()) {
                Err(None)
            } else if c[k] == ',' {
                match items_at(c, k + 1, t) {
                    Err(s) => Err(s),
                    Ok((rest, q)) => Ok((seq![v] + rest, q)),
                }
            } else if c[k] == ']' {
                Ok((seq![v], k + 1))
            } else {
                Err(None)
            }
        },
    }
}

/// The members of an object from `i` on, up to its closing brace.
pub open spec fn members_at(c: Seq<char>, i: int, t: RealTableV) -> Result<
    (Seq<(Seq<char>, JsonV)>, int),
    Stop,
>
    decreases c.len() - i, 2nat,
{
    let a = ws_end(c, i);
    match string_at(c, a) {
        None => Err(None),
        Some((key, p)) => {
            let b = ws_end(c, p);
            if !(i <= a < p <= b < c.len()) || c[b] != ':' {
                Err(None)
            } else {
                match value_at(c, b + 1, t) {
                    Err(s) => Err(s),
                    Ok((v, q)) => {
                        let k = ws_end(c, q);
                        if !(b + 1 < q <= k < c.len()) {
                            Err(None)
                        } else if c[k] == ',' {
                            match members_at(c, k + 1, t) {
                                Err(s) => Err(s),
                                Ok((rest, r)) => Ok((seq![(key, v)] + rest, r)),
                            }
                        } else if c[k] == '}' {
                            Ok((seq![(key, v)], k + 1))
                        } else {
                            Err(None)
                        }
                    },
                }
            }
        },
    }
}

/// The document that a text is.
pub open spec fn document(c: Seq<char>, t: RealTableV) -> Result<JsonV, Stop> {
    match value_at(c, ws_end(c, 0), t) {
        Err(s) => Err(s),
        Ok((v, p)) => if ws_end(c, p) == c.len() {
            Ok(v)
        } else {
            Err(None)
        },
    }
}

proof fn lemma_ws_end(c: Seq<char>, i: int)
    requires
        0 <= i <= c.len(),
    ensures
        i <= ws_end(c, i) <= c.len(),
    decreases c.len() - i,
{
    if i < c.len() && is_ws(c[i]) {
        lemma_ws_end(c, i + 1);
    }
}

proof fn lemma_digits_end(c: Seq<char>, i: int)
    requires
        0 <= i <= c.len(),
    ensures
        i <= digits_end(c, i) <= c.len(),
    decreases c.len() - i,
{
    if i < c.len() && is_digit(c[i]) {
        lemma_digits_end(c, i + 1);
    }
}

proof fn lemma_chars_at(c: Seq<char>, i: int)
    requires
        0 <= i,
    ensures
        chars_at(c, i) is Some ==> i < (chars_at(c, i)->0).1 <= c.len(),
    decreases c.len() - i,
{
    if i < c.len() && c[i] != '"' {
        if c[i] == '\\' {
            if escape_at(c, i + 1) is Some {
                lemma_chars_at(c, (escape_at(c, i + 1)->0).1);
            }
        } else {
            lemma_chars_at(c, i + 1);
        }
    }
}

proof fn lemma_number_end(c: Seq<char>, i: int)
    requires
        0 <= i < c.len(),
        c[i] == '-' || is_digit(c[i]),
    ensures
        i < number_end(c, i).0 <= c.len(),
{
    let a = if c[i] == '-' {
        i + 1
    } else {
        i
    };
    lemma_digits_end(c, a);
    let b = digits_end(c, a);
    let d = if b < c.len() && c[b] == '.' {
        lemma_digits_end(c, b + 1);
        digits_end(c, b + 1)
    } else {
        b
    };
    if d < c.len() {
        lemma_digits_end(c, d + 1);
        if d + 1 < c.len() {
            lemma_digits_end(c, d + 2);
        }
    }
}

/// A value that is found ends behind its start, inside the text.
proof fn lemma_value_at(c: Seq<char>, i: int, t: RealTableV)
    requires
        0 <= i <= c.len(),
    ensures
        value_at(c, i, t) is Ok ==> i < value_at(c, i, t)->Ok_0.1 <= c.len(),
    decreases c.len() - i, 1nat,
{
    lemma_ws_end(c, i);
    let k = ws_end(c, i);
    if k < c.len() {
        if c[k] == '{' {
            lemma_ws_end(c, k + 1);
            lemma_members_at(c, ws_end(c, k + 1), t);
        } else if c[k] == '[' {
            lemma_ws_end(c, k + 1);
            lemma_items_at(c, ws_end(c, k + 1), t);
        } else if c[k] == '"' {
            lemma_chars_at(c, k + 1);
        } else if c[k] == '-' || is_digit(c[k]) {
            lemma_number_end(c, k);
        }
        reveal_strlit("true");
        reveal_strlit("false");
        reveal_strlit("null");
    }
}

proof fn lemma_items_at(c: Seq<char>, i: int, t: RealTableV)
    requires
        0 <= i <= c.len(),
    ensures
        items_at(c, i, t) is Ok ==> i < items_at(c, i, t)->Ok_0.1 <= c.len(),
    decreases c.len() - i, 2nat,
{
    lemma_value_at(c, i, t);
    match value_at(c, i, t) {
        Ok((v, p)) => {
            let k = ws_end(c, p);
            if i < p <= k < c.len() && c[k] == ',' {
                lemma_items_at(c, k + 1, t);
            }
        },
        _ => {},
    }
}

proof fn lemma_members_at(c: Seq<char>, i: int, t: RealTableV)
    requires
        0 <= i <= c.len(),
    ensures
        members_at(c, i, t) is Ok ==> i < members_at(c, i, t)->Ok_0.1 <= c.len(),
    decreases c.len() - i, 2nat,
{
    let a = ws_end(c, i);
    match string_at(c, a) {
        Some((key, p)) => {
            let b = ws_end(c, p);
            if i <= a < p <= b < c.len() {
                match value_at(c, b + 1, t) {
                    Ok((v, q)) => {
                        let k = ws_end(c, q);
                        if b + 1 < q <= k < c.len() && c[k] == ',' {
                            lemma_members_at(c, k + 1, t);
                        }
                    },
                    _ => {},
                }
            }
        },
        _ => {},
    }
}

/// Why an executable parse stops.
pub open spec fn stop_v(s: Option<RealOp>) -> Stop {
    match s {
        Some(op) => Some(op@),
        None => None,
    }
}

fn skip_ws(c: &[char], i: usize) -> (r: usize)
    requires
        i <= c@.len(),
    ensures
        r == ws_end(c@, i as int),
        i <= r <= c@.len(),
{
    let mut k: usize = i;
    while k < c.len() && (c[k] == ' ' || c[k] == '\t' || c[k] == '\n' || c[k] == '\r')
        invariant
            i <= k <= c@.len(),
            ws_end(c@, i as int) == ws_end(c@, k as int),
        decreases c@.len() - k,
    {
        k = k + 1;
    }
    k
}

fn skip_digits(c: &[char], i: usize) -> (r: usize)
    requires
        i <= c@.len(),
    ensures
        r == digits_end(c@, i as int),
        i <= r <= c@.len(),
{
    let mut k: usize = i;
    while k < c.len() && '0' <= c[k] && c[k] <= '9'
        invariant
            i <= k <= c@.len(),
            digits_end(c@, i as int) == digits_end(c@, k as int),
        decreases c@.len() - k,
    {
        k = k + 1;
    }
    k
}

fn escape(c: &[char], i: usize) -> (r: Option<(char, usize)>)
    requires
        i <= c@.len(),
    ensures
        (match escape_at(c@, i as int) {
            Some((ch, p)) => r is Some && (r->0).0 == ch && (r->0).1 == p,
            None => r is None,
        }),
{
    if i >= c.len() {
        return None;
    }
    let ch: char = c[i];
    if ch == '"' || ch == '\\' || ch == '/' {
        Some((ch, i + 1))
    } else if ch == 'n' {
        Some(('\n', i + 1))
    } else if ch == 't' {
        Some(('\t', i + 1))
    } else if ch == 'r' {
        Some(('\r', i + 1))
    } else if ch == 'b' {
        Some(('\u{8}', i + 1))
    } else if ch == 'f' {
        Some(('\u{c}', i + 1))
    } else if ch == 'u' {
        if c.len() - i < 5 {
            return None;
        }
        match (hex_digit(c[i + 1]), hex_digit(c[i + 2]), hex_digit(c[i + 3]), hex_digit(c[i + 4])) {
            (Some(a), Some(b), Some(d), Some(e)) => {
                let code: u32 = ((a * 16 + b) * 16 + d) * 16 + e;
                match char_of_code(code) {
                    Some(x) => Some((x, i + 5)),
                    None => None,
                }
            },
            _ => None,
        }
    } else {
        None
    }
}

fn string(c: &[char], i: usize) -> (r: Option<(String, usize)>)
    requires
        i <= c@.len(),
    ensures
        (match string_at(c@, i as int) {
            Some((s, p)) => r is Some && (r->0).0@ == s && (r->0).1 == p,
            None => r is None,
        }),
{
    if i >= c.len() || c[i] != '"' {
        return None;
    }
    let mut out: Vec<char> = Vec::new();
    let mut k: usize = i + 1;
    let ghost all = chars_at(c@, i + 1);
    assert(all is Some ==> out@ + (all->0).0 =~= (all->0).0);
    while k < c.len()
        invariant
            i < k <= c@.len(),
            all == string_at(c@, i as int),
            (match chars_at(c@, k as int) {
                Some((rest, q)) => all == Some((out@ + rest, q)),
                None => all is None,
            }),
        decreases c@.len() - k,
    {
        let ch: char = c[k];
        if ch == '"' {
            assert(out@ + Seq::<char>::empty() =~= out@);
            return Some((string_of(out), k + 1));
        }
        let ghost before = out@;
        if ch == '\\' {
            match escape(c, k + 1) {
                None => {
                    return None;
                },
                Some((x, p)) => {
                    out.push(x);
                    proof {
                        match chars_at(c@, p as int) {
                            Some((rest, q)) => {
                                assert(before + (seq![x] + rest) =~= out@ + rest);
                            },
                            None => {},
                        }
                    }
                    k = p;
                },
            }
        } else {
            out.push(ch);
            proof {
                match chars_at(c@, k + 1) {
                    Some((rest, q)) => {
                        assert(before + (seq![ch] + rest) =~= out@ + rest);
                    },
                    None => {},
                }
            }
            k = k + 1;
        }
    }
    None
}

fn word(c: &[char], i: usize, w: &str) -> (r: bool)
    requires
        i <= c@.len(),
    ensures
        r == word_at(c@, i as int, w@),
{
    let ws = chars_of(w);
    if ws.len() > c.len() - i {
        return false;
    }
    let n: usize = ws.len();
    for k in 0..n
        invariant
            n == ws@.len(),
            ws@ == w@,
            i + n <= c@.len(),
            forall|j: int| 0 <= j < k ==> c@[i + j] == w@[j],
    {
        assert(c.len() == c@.len());
        if c[i + k] != ws[k] {
            assert(c@.subrange(i as int, i + n)[k as int] != w@[k as int]);
            return false;
        }
    }
    assert(c@.subrange(i as int, i + n) =~= w@);
    true
}

fn number(c: &[char], i: usize, t: &RealTable) -> (r: Result<(Json, usize), Option<RealOp>>)
    requires
        i < c@.len(),
        c@[i as int] == '-' || is_digit(c@[i as int]),
    ensures
        (match number_at(c@, i as int, t@) {
            Ok((v, p)) => r is Ok && r->Ok_0.0@ == v && r->Ok_0.1 == p,
            Err(s) => r is Err && stop_v(r->Err_0) == s,
        }),
{
    proof {
        lemma_number_end(c@, i as int);
    }
    let mut k: usize = i;
    if c[k] == '-' {
        k = k + 1;
    }
    k = skip_digits(c, k);
    let mut is_float: bool = false;
    if k < c.len() && c[k] == '.' {
        is_float = true;
        k = skip_digits(c, k + 1);
    }
    if k < c.len() && (c[k] == 'e' || c[k] == 'E') {
        is_float = true;
        k = k + 1;
        if k < c.len() && (c[k] == '+' || c[k] == '-') {
            k = k + 1;
        }
        k = skip_digits(c, k);
    }
    assert((k as int, is_float) == number_end(c@, i as int));
    let text = string_range(c, i, k);
    if !is_float {
        let cs = chars_of(text.as_str());
        match parse_i64(cs.as_slice()) {
            Some(n) => {
                return Ok((Json::Int(n), k));
            },
            None => {},
        }
    }
    match t.numeral(text) {
        Ok(Some(b)) => Ok((Json::Float(b), k)),
        Ok(None) => Err(None),
        Err(op) => Err(Some(op)),
    }
}

fn value(c: &[char], i: usize, t: &RealTable) -> (r: Result<(Json, usize), Option<RealOp>>)
    requires
        i <= c@.len(),
    ensures
        (match value_at(c@, i as int, t@) {
            Ok((v, p)) => r is Ok && r->Ok_0.0@ == v && r->Ok_0.1 == p,
            Err(s) => r is Err && stop_v(r->Err_0) == s,
        }),
    decreases c@.len() - i, 1nat,
{
    let k: usize = skip_ws(c, i);
    if k >= c.len() {
        return Err(None);
    }
    let ch: char = c[k];
    if ch == '{' {
        let m: usize = skip_ws(c, k + 1);
        if m < c.len() && c[m] == '}' {
            let o: Vec<(String, Json)> = Vec::new();
            assert(object_v(o@) =~= Seq::empty());
            Ok((Json::Object(o), m + 1))
        } else {
            match members(c, m, t) {
                Err(s) => Err(s),
                Ok((o, p)) => Ok((Json::Object(o), p)),
            }
        }
    } else if ch == '[' {
        let m: usize = skip_ws(c, k + 1);
        if m < c.len() && c[m] == ']' {
            let a: Vec<Json> = Vec::new();
            assert(array_v(a@) =~= Seq::empty());
            Ok((Json::Array(a), m + 1))
        } else {
            match items(c, m, t) {
                Err(s) => Err(s),
                Ok((a, p)) => Ok((Json::Array(a), p)),
            }
        }
    } else if ch == '"' {
        match string(c, k) {
            None => Err(None),
            Some((s, p)) => Ok((Json::Str(s), p)),
        }
    } else if ch == 't' {
        proof {
            reveal_strlit("true");
        }
        if word(c, k, "true") {
            Ok((Json::Bool(true), k + 4))
        } else {
            Err(None)
        }
    } else if ch == 'f' {
        proof {
            reveal_strlit("false");
        }
        if word(c, k, "false") {
            Ok((Json::Bool(false), k + 5))
        } else {
            Err(None)
        }
    } else if ch == 'n' {
        proof {
            reveal_strlit("null");
        }
        if word(c, k, "null") {
            Ok((Json::Null, k + 4))
        } else {
            Err(None)
        }
    } else if ch == '-' || ('0' <= ch && ch <= '9') {
        number(c, k, t)
    } else {
        Err(None)
    }
}

fn items(c: &[char], i: usize, t: &RealTable) -> (r: Result<(Vec<Json>, usize), Option<RealOp>>)
    requires
        i <= c@.len(),
    ensures
        (match items_at(c@, i as int, t@) {
            Ok((v, p)) => r is Ok && array_v(r->Ok_0.0@) == v && r->Ok_0.1 == p,
            Err(s) => r is Err && stop_v(r->Err_0) == s,
        }),
    decreases c@.len() - i, 2nat,
{
    let mut out: Vec<Json> = Vec::new();
    let mut k: usize = i;
    let ghost all = items_at(c@, i as int, t@);
    assert(all is Ok ==> array_v(out@) + all->Ok_0.0 =~= all->Ok_0.0);
    loop
        invariant
            i <= k <= c@.len(),
            all == items_at(c@, i as int, t@),
            (match items_at(c@, k as int, t@) {
                Ok((rest, q)) => all == Ok::<(Seq<JsonV>, int), Stop>((array_v(out@) + rest, q)),
                Err(s) => all == Err::<(Seq<JsonV>, int), Stop>(s),
            }),
        decreases c@.len() - k,
    {
        proof {
            lemma_value_at(c@, k as int, t@);
        }
        let (v, p): (Json, usize) = match value(c, k, t) {
            Err(s) => {
                return Err(s);
            },
            Ok(x) => x,
        };
        let m: usize = skip_ws(c, p);
        if m >= c.len() {
            return Err(None);
        }
        let ghost before = array_v(out@);
        let ghost jv = v@;
        if c[m] == ',' {
            out.push(v);
            proof {
                assert(array_v(out@) =~= before.push(jv));
                match items_at(c@, m + 1, t@) {
                    Ok((rest, q)) => {
                        assert(before + (seq![jv] + rest) =~= array_v(out@) + rest);
                    },
                    Err(_) => {},
                }
            }
            k = m + 1;
        } else if c[m] == ']' {
            out.push(v);
            assert(array_v(out@) =~= before + seq![jv]);
            return Ok((out, m + 1));
        } else {
            return Err(None);
        }
    }
}

fn members(c: &[char], i: usize, t: &RealTable) -> (r: Result<
    (Vec<(String, Json)>, usize),
    Option<RealOp>,
>)
    requires
        i <= c@.len(),
    ensures
        (match members_at(c@, i as int, t@) {
            Ok((v, p)) => r is Ok && object_v(r->Ok_0.0@) == v && r->Ok_0.1 == p,
            Err(s) => r is Err && stop_v(r->Err_0) == s,
        }),
    decreases c@.len() - i, 2nat,
{
    let mut out: Vec<(String, Json)> = Vec::new();
    let mut k: usize = i;
    let ghost all = members_at(c@, i as int, t@);
    assert(all is Ok ==> object_v(out@) + all->Ok_0.0 =~= all->Ok_0.0);
    loop
        invariant
            i <= k <= c@.len(),
            all == members_at(c@, i as int, t@),
            (match members_at(c@, k as int, t@) {
                Ok((rest, q)) => all == Ok::<(Seq<(Seq<char>, JsonV)>, int), Stop>(
                    (object_v(out@) + rest, q),
                ),
                Err(s) => all == Err::<(Seq<(Seq<char>, JsonV)>, int), Stop>(s),
            }),
        decreases c@.len() - k,
    {
        let a: usize = skip_ws(c, k);
        proof {
            if a < c@.len() {
                lemma_chars_at(c@, a + 1);
            }
        }
        let (key, p): (String, usize) = match string(c, a) {
            None => {
                return Err(None);
            },
            Some(x) => x,
        };
        let b: usize = skip_ws(c, p);
        if b >= c.len() || c[b] != ':' {
            return Err(None);
        }
        proof {
            lemma_value_at(c@, b + 1, t@);
        }
        let (v, q): (Json, usize) = match value(c, b + 1, t) {
            Err(s) => {
                return Err(s);
            },
            Ok(x) => x,
        };
        let m: usize = skip_ws(c, q);
        if m >= c.len() {
            return Err(None);
        }
        let ghost before = object_v(out@);
        let ghost pair = (key@, v@);
        if c[m] == ',' {
            out.push((key, v));
            proof {
                assert(object_v(out@) =~= before.push(pair));
                match members_at(c@, m + 1, t@) {
                    Ok((rest, z)) => {
                        assert(before + (seq![pair] + rest) =~= object_v(out@) + rest);
                    },
                    Err(_) => {},
                }
            }
            k = m + 1;
        } else if c[m] == '}' {
            out.push((key, v));
            assert(object_v(out@) =~= before + seq![pair]);
            return Ok((out, m + 1));
        } else {
            return Err(None);
        }
    }
}

/// Parses a whole document: `None` where the text is not JSON. The outcome of a
/// computation on reals may be missing.
pub fn parse(s: &str, t: &RealTable) -> (r: Result<Option<Json>, RealOp>)
    ensures
        (match document(s@, t@) {
            Ok(v) => r is Ok && r->Ok_0 is Some && r->Ok_0->0@ == v,
            Err(None) => r is Ok && r->Ok_0 is None,
            Err(Some(op)) => r is Err && r->Err_0@ == op,
        }),
{
    let chars = chars_of(s);
    let c = chars.as_slice();
    let i: usize = skip_ws(c, 0);
    proof {
        lemma_value_at(c@, i as int, t@);
    }
    match value(c, i, t) {
        Err(None) => Ok(None),
        Err(Some(op)) => Err(op),
        Ok((v, p)) => {
            if skip_ws(c, p) == c.len() {
                Ok(Some(v))
            } else {
                Ok(None)
            }
        },
    }
}

// --- serialisation ---

/// How a character is written inside a string.
pub open spec fn escaped_char(ch: char) -> Seq<char> {
    if ch == '"' {
        seq!['\\', '"']
    } else if ch == '\\' {
        seq!['\\', '\\']
    } else if ch == '\n' {
        seq!['\\', 'n']
    } else if ch == '\t' {
        seq!['\\', 't']
    } else if ch == '\r' {
        seq!['\\', 'r']
    } else if (ch as u32) < 0x20 {
        seq![
            '\\',
            'u',
            '0',
            '0',
            hex_char((ch as u32) as int / 16, false),
            hex_char((ch as u32) as int % 16, false),
        ]
    } else {
        seq![ch]
    }
}

pub open spec fn escaped_chars(s: Seq<char>) -> Seq<char>
    decreases s.len(),
{
    if s.len() == 0 {
        Seq::empty()
    } else {
        escaped_chars(s.drop_last()) + escaped_char(s.last())
    }
}

/// A string in quotes.
pub open spec fn quoted(s: Seq<char>) -> Seq<char> {
    seq!['"'] + escaped_chars(s) + seq!['"']
}

/// The compact text of a value.
pub open spec fn json_text(j: JsonV, t: RealTableV) -> Result<Seq<char>, RealOpV>
    decreases j,
{
    match j {
        JsonV::Null => Ok("null"@),
        JsonV::Bool(b) => Ok(
            if b {
                "true"@
            } else {
                "false"@
            },
        ),
        JsonV::Int(n) => Ok(int_text(n as int)),
        JsonV::Float(b) => known_text(t, RealOpV::Show(b)),
        JsonV::Str(s) => Ok(quoted(s)),
        JsonV::Array(a) => match items_text(a, t) {
            Ok(x) => Ok(seq!['['] + x + seq![']']),
            Err(e) => Err(e),
        },
        JsonV::Object(o) => match members_text(o, t) {
            Ok(x) => Ok(seq!['{'] + x + seq!['}']),
            Err(e) => Err(e),
        },
    }
}

/// Texts of items, with commas between them.
pub open spec fn items_text(a: Seq<JsonV>, t: RealTableV) -> Result<Seq<char>, RealOpV>
    decreases a,
{
    if a.len() == 0 {
        Ok(Seq::empty())
    } else {
        match items_text(a.drop_last(), t) {
            Err(e) => Err(e),
            Ok(x) => match json_text(a.last(), t) {
                Err(e) => Err(e),
                Ok(y) => Ok(
                    if a.len() == 1 {
                        y
                    } else {
                        x + seq![','] + y
                    },
                ),
            },
        }
    }
}

/// Texts of members, with commas between them.
pub open spec fn members_text(o: Seq<(Seq<char>, JsonV)>, t: RealTableV) -> Result<
    Seq<char>,
    RealOpV,
>
    decreases o,
{
    if o.len() == 0 {
        Ok(Seq::empty())
    } else {
        match members_text(o.drop_last(), t) {
            Err(e) => Err(e),
            Ok(x) => match json_text(o.last().1, t) {
                Err(e) => Err(e),
                Ok(y) => {
                    let m = quoted(o.last().0) + seq![':'] + y;
                    Ok(
                        if o.len() == 1 {
                            m
                        } else {
                            x + seq![','] + m
                        },
                    )
                },
            },
        }
    }
}

fn write_str(s: &str, out: &mut Vec<char>)
    ensures
        final(out)@ == old(out)@ + quoted(s@),
{
    let cs = chars_of(s);
    out.push('"');
    let ghost start = out@;
    let n: usize = cs.len();
    assert(start + escaped_chars(s@.take(0)) =~= start);
    for i in 0..n
        invariant
            n == cs@.len(),
            cs@ == s@,
            out@ == start + escaped_chars(s@.take(i as int)),
    {
        let ch: char = cs[i];
        let ghost before = out@;
        if ch == '"' {
            out.push('\\');
            out.push('"');
        } else if ch == '\\' {
            out.push('\\');
            out.push('\\');
        } else if ch == '\n' {
            out.push('\\');
            out.push('n');
        } else if ch == '\t' {
            out.push('\\');
            out.push('t');
        } else if ch == '\r' {
            out.push('\\');
            out.push('r');
        } else if (ch as u32) < 0x20 {
            let code: u8 = (ch as u32) as u8;
            assert(code as int == (ch as u32) as int);
            out.push('\\');
            out.push('u');
            out.push('0');
            out.push('0');
            out.push(hex_of(code / 16, false));
            out.push(hex_of(code % 16, false));
        } else {
            out.push(ch);
        }
        assert(out@ =~= before + escaped_char(ch));
        assert(s@.take(i + 1).drop_last() =~= s@.take(i as int));
        assert(out@ =~= start + escaped_chars(s@.take(i + 1)));
    }
    assert(s@.take(n as int) =~= s@);
    out.push('"');
    assert(out@ =~= old(out)@ + quoted(s@));
}

fn push_lit(out: &mut Vec<char>, s: &str)
    ensures
        final(out)@ == old(out)@ + s@,
{
    let cs = chars_of(s);
    push_chars(out, cs.as_slice());
}

fn write(j: &Json, out: &mut Vec<char>, t: &RealTable) -> (r: Result<(), RealOp>)
    ensures
        (match json_text(j@, t@) {
            Ok(x) => r is Ok && final(out)@ == old(out)@ + x,
            Err(op) => r is Err && r->Err_0@ == op,
        }),
    decreases j,
{
    match j {
        Json::Null => push_lit(out, "null"),
        Json::Bool(b) => push_lit(
            out,
            if *b {
                "true"
            } else {
                "false"
            },
        ),
        Json::Int(n) => push_lit(out, i64_text(*n).as_str()),
        Json::Float(b) => match t.text(RealOp::Show(*b)) {
            Ok(s) => push_lit(out, s.as_str()),
            Err(op) => {
                return Err(op);
            },
        },
        Json::Str(s) => write_str(s.as_str(), out),
        Json::Array(a) => {
            out.push('[');
            match write_items(a, out, t) {
                Ok(_) => {},
                Err(op) => {
                    return Err(op);
                },
            }
            out.push(']');
            assert(out@ =~= old(out)@ + json_text(j@, t@)->Ok_0);
        },
        Json::Object(o) => {
            out.push('{');
            match write_members(o, out, t) {
                Ok(_) => {},
                Err(op) => {
                    return Err(op);
                },
            }
            out.push('}');
            assert(out@ =~= old(out)@ + json_text(j@, t@)->Ok_0);
        },
    }
    Ok(())
}

fn write_items(a: &Vec<Json>, out: &mut Vec<char>, t: &RealTable) -> (r: Result<(), RealOp>)
    ensures
        (match items_text(array_v(a@), t@) {
            Ok(x) => r is Ok && final(out)@ == old(out)@ + x,
            Err(op) => r is Err && r->Err_0@ == op,
        }),
    decreases a,
{
    let ghost av = array_v(a@);
    let ghost start = out@;
    let n: usize = a.len();
    let mut i: usize = 0;
    assert(start + Seq::<char>::empty() =~= start);
    while i < n
        invariant
            i <= n,
            n == a@.len(),
            av == array_v(a@),
            items_text(av.take(i as int), t@) is Ok,
            out@ == start + items_text(av.take(i as int), t@)->Ok_0,
        decreases n - i,
    {
        assert(av.take(i + 1).drop_last() =~= av.take(i as int));
        let ghost done = items_text(av.take(i as int), t@)->Ok_0;
        if i > 0 {
            out.push(',');
        }
        match write(&a[i], out, t) {
            Ok(_) => {},
            Err(op) => {
                proof {
                    lemma_items_err(av, i as int, t@);
                }
                return Err(op);
            },
        }
        proof {
            let y = json_text(av[i as int], t@)->Ok_0;
            assert(av.take(i + 1).last() == av[i as int]);
            if i > 0 {
                assert(out@ =~= start + (done + seq![','] + y));
            } else {
                assert(av.take(0) =~= Seq::empty());
                assert(out@ =~= start + y);
            }
        }
        i = i + 1;
    }
    assert(av.take(n as int) =~= av);
    Ok(())
}

/// Items fail as their first failing item does.
proof fn lemma_items_err(a: Seq<JsonV>, i: int, t: RealTableV)
    requires
        0 <= i < a.len(),
        items_text(a.take(i), t) is Ok,
        json_text(a[i], t) is Err,
    ensures
        items_text(a, t) == Err::<Seq<char>, RealOpV>(json_text(a[i], t)->Err_0),
    decreases a.len(),
{
    if i == a.len() - 1 {
        assert(a.drop_last() =~= a.take(i));
    } else {
        assert(a.drop_last().take(i) =~= a.take(i));
        lemma_items_err(a.drop_last(), i, t);
    }
}

fn write_members(o: &Vec<(String, Json)>, out: &mut Vec<char>, t: &RealTable) -> (r: Result<
    (),
    RealOp,
>)
    ensures
        (match members_text(object_v(o@), t@) {
            Ok(x) => r is Ok && final(out)@ == old(out)@ + x,
            Err(op) => r is Err && r->Err_0@ == op,
        }),
    decreases o,
{
    let ghost ov = object_v(o@);
    let ghost start = out@;
    let n: usize = o.len();
    let mut i: usize = 0;
    assert(start + Seq::<char>::empty() =~= start);
    while i < n
        invariant
            i <= n,
            n == o@.len(),
            ov == object_v(o@),
            members_text(ov.take(i as int), t@) is Ok,
            out@ == start + members_text(ov.take(i as int), t@)->Ok_0,
        decreases n - i,
    {
        assert(ov.take(i + 1).drop_last() =~= ov.take(i as int));
        let ghost done = members_text(ov.take(i as int), t@)->Ok_0;
        if i > 0 {
            out.push(',');
        }
        write_str(o[i].0.as_str(), out);
        out.push(':');
        assert(decreases_to!(o@[i as int] => o@[i as int].1));
        match write(&o[i].1, out, t) {
            Ok(_) => {},
            Err(op) => {
                proof {
                    lemma_members_err(ov, i as int, t@);
                }
                return Err(op);
            },
        }
        proof {
            let y = json_text(ov[i as int].1, t@)->Ok_0;
            let m = quoted(ov[i as int].0) + seq![':'] + y;
            assert(ov.take(i + 1).last() == ov[i as int]);
            if i > 0 {
                assert(out@ =~= start + (done + seq![','] + m));
            } else {
                assert(ov.take(0) =~= Seq::empty());
                assert(out@ =~= start + m);
            }
        }
        i = i + 1;
    }
    assert(ov.take(n as int) =~= ov);
    Ok(())
}

proof fn lemma_members_err(a: Seq<(Seq<char>, JsonV)>, i: int, t: RealTableV)
    requires
        0 <= i < a.len(),
        members_text(a.take(i), t) is Ok,
        json_text(a[i].1, t) is Err,
    ensures
        members_text(a, t) == Err::<Seq<char>, RealOpV>(json_text(a[i].1, t)->Err_0),
    decreases a.len(),
{
    if i == a.len() - 1 {
        assert(a.drop_last() =~= a.take(i));
    } else {
        assert(a.drop_last().take(i) =~= a.take(i));
        lemma_members_err(a.drop_last(), i, t);
    }
}

/// The compact text of a value. The text of a real may be missing.
pub fn to_string(j: &Json, t: &RealTable) -> (r: Result<String, RealOp>)
    ensures
        (match json_text(j@, t@) {
            Ok(x) => r is Ok && r->Ok_0@ == x,
            Err(op) => r is Err && r->Err_0@ == op,
        }),
{
    let mut out: Vec<char> = Vec::new();
    match write(j, &mut out, t) {
        Ok(_) => {
            assert(out@ =~= json_text(j@, t@)->Ok_0);
            Ok(string_of(out))
        },
        Err(op) => Err(op),
    }
}

// --- paths ---

/// The key that starts at `i` ends before this position.
pub open spec fn key_end(c: Seq<char>, i: int) -> int
    decreases c.len() - i,
{
    if 0 <= i < c.len() && c[i] != '.' && c[i] != '[' {
        key_end(c, i + 1)
    } else {
        i
    }
}

/// The index that starts at `i` ends before this position.
pub open spec fn index_end(c: Seq<char>, i: int) -> int
    decreases c.len() - i,
{
    if 0 <= i < c.len() && c[i] != ']' {
        index_end(c, i + 1)
    } else {
        i
    }
}

/// The first member with a key.
pub open spec fn member(o: Seq<(Seq<char>, JsonV)>, key: Seq<char>) -> Option<JsonV>
    decreases o.len(),
{
    if o.len() == 0 {
        None
    } else if o[0].0 == key {
        Some(o[0].1)
    } else {
        member(o.drop_first(), key)
    }
}

/// What the rest of a path, from `i` on, leads to.
pub open spec fn follow(j: JsonV, c: Seq<char>, i: int) -> Option<JsonV>
    decreases c.len() - i,
{
    if i < 0 || i >= c.len() {
        Some(j)
    } else if c[i] == '.' {
        let e = key_end(c, i + 1);
        match j {
            JsonV::Object(o) => match member(o, c.subrange(i + 1, e)) {
                Some(x) => if i < e <= c.len() {
                    follow(x, c, e)
                } else {
                    None
                },
                None => None,
            },
            _ => None,
        }
    } else if c[i] == '[' {
        let e = index_end(c, i + 1);
        match (usize_of(c.subrange(i + 1, e)), j) {
            (Some(k), JsonV::Array(a)) => if k < a.len() && e == c.len() {
                Some(a[k as int])
            } else if k < a.len() && i < e < c.len() {
                follow(a[k as int], c, e + 1)
            } else {
                None
            },
            _ => None,
        }
    } else {
        None
    }
}

/// What a path leads to.
pub open spec fn extracted(root: JsonV, path: Seq<char>) -> Option<JsonV> {
    if path.len() > 0 && path[0] == '$' {
        follow(root, path, 1)
    } else {
        None
    }
}

fn find_member<'a>(o: &'a Vec<(String, Json)>, key: &str) -> (r: Option<&'a Json>)
    ensures
        (match member(object_v(o@), key@) {
            Some(x) => r is Some && r->0@ == x,
            None => r is None,
        }),
{
    let ghost ov = object_v(o@);
    let n: usize = o.len();
    assert(ov.skip(0) =~= ov);
    for i in 0..n
        invariant
            n == o@.len(),
            ov == object_v(o@),
            member(ov, key@) == member(ov.skip(i as int), key@),
    {
        assert(ov.skip(i as int)[0] == ov[i as int]);
        assert(ov.skip(i as int).drop_first() =~= ov.skip(i + 1));
        if str_eq(o[i].0.as_str(), key) {
            return Some(&o[i].1);
        }
    }
    None
}

/// The value that a path such as `$.a.b[0]` leads to; `None` where there is none.
pub fn extract<'a>(root: &'a Json, path: &str) -> (r: Option<&'a Json>)
    ensures
        (match extracted(root@, path@) {
            Some(x) => r is Some && r->0@ == x,
            None => r is None,
        }),
{
    let chars = chars_of(path);
    let c = chars.as_slice();
    if c.len() == 0 || c[0] != '$' {
        return None;
    }
    let mut i: usize = 1;
    let mut cur: &'a Json = root;
    while i < c.len()
        invariant
            1 <= i,
            c@ == path@,
            extracted(root@, path@) == follow(cur@, c@, i as int),
        decreases c@.len() - i,
    {
        assert(c.len() == c@.len());
        if c[i] == '.' {
            let start: usize = i + 1;
            let mut e: usize = start;
            while e < c.len() && c[e] != '.' && c[e] != '['
                invariant
                    start <= e <= c@.len(),
                    key_end(c@, start as int) == key_end(c@, e as int),
                decreases c@.len() - e,
            {
                e = e + 1;
            }
            let key = string_range(c, start, e);
            match cur {
                Json::Object(o) => match find_member(o, key.as_str()) {
                    Some(x) => {
                        cur = x;
                    },
                    None => {
                        return None;
                    },
                },
                _ => {
                    return None;
                },
            }
            i = e;
        } else if c[i] == '[' {
            let start: usize = i + 1;
            let mut e: usize = start;
            while e < c.len() && c[e] != ']'
                invariant
                    start <= e <= c@.len(),
                    index_end(c@, start as int) == index_end(c@, e as int),
                decreases c@.len() - e,
            {
                e = e + 1;
            }
            let idx: usize = match parse_usize(vstd::slice::slice_subrange(c, start, e)) {
                Some(k) => k,
                None => {
                    return None;
                },
            };
            match cur {
                Json::Array(a) => {
                    if idx >= a.len() {
                        return None;
                    }
                    cur = &a[idx];
                },
                _ => {
                    return None;
                },
            }
            if e == c.len() {
                return Some(cur);
            }
            i = e + 1;
        } else {
            return None;
        }
    }
    Some(cur)
}

} // verus!
