//! What the JSON functions are for: where a path leads, what is read there, and what is built.
#[allow(unused_imports)]
use vstd::prelude::*;

#[allow(unused_imports)]
use crate::error::ErrorV;
#[allow(unused_imports)]
use crate::exec::functions::Func;
#[allow(unused_imports)]
use crate::exec::json_fns::{arrow_value, extract_call, items_from, json_call, json_value, members_from, sql_value, text_value};
#[allow(unused_imports)]
use crate::exec::ops::EnvV;
#[allow(unused_imports)]
use crate::record::ValueV;
#[allow(unused_imports)]
use crate::sql::ast::BinOp;
#[allow(unused_imports)]
use crate::sql::json::{document, extracted, follow, index_end, key_end, member, JsonV, Stop};
#[allow(unused_imports)]
use crate::text::usize_of;

verus! {

// --- paths ---

/// A key that a path can name as it stands.
pub open spec fn plain_key(k: Seq<char>) -> bool {
    forall|i: int| 0 <= i < k.len() ==> #[trigger] k[i] != '.' && k[i] != '['
}

/// At `i` of a path the key `k` is named, and a further part or the end follows it.
pub open spec fn names_key(c: Seq<char>, i: int, k: Seq<char>) -> bool {
    &&& 0 <= i
    &&& i + 1 + k.len() <= c.len()
    &&& c[i] == '.'
    &&& c.subrange(i + 1, i + 1 + k.len()) == k
    &&& i + 1 + k.len() < c.len() ==> c[i + 1 + k.len()] == '.' || c[i + 1 + k.len()] == '['
}

proof fn lemma_key_end(c: Seq<char>, from: int, end: int)
    requires
        0 <= from <= end <= c.len(),
        forall|i: int| from <= i < end ==> #[trigger] c[i] != '.' && c[i] != '[',
        end < c.len() ==> c[end] == '.' || c[end] == '[',
    ensures
        key_end(c, from) == end,
    decreases end - from,
{
    if from < end {
        lemma_key_end(c, from + 1, end);
    }
}

proof fn lemma_index_end(c: Seq<char>, from: int, end: int)
    requires
        0 <= from <= end <= c.len(),
        forall|i: int| from <= i < end ==> #[trigger] c[i] != ']',
        end < c.len() ==> c[end] == ']',
    ensures
        index_end(c, from) == end,
    decreases end - from,
{
    if from < end {
        lemma_index_end(c, from + 1, end);
    }
}

/// A path without parts leads to the whole document, and one that does not start with `$` to
/// nothing. A key leads on from the member of that key of an object; there is none elsewhere.
pub proof fn paths_follow_keys(j: JsonV, c: Seq<char>, i: int, k: Seq<char>)
    requires
        plain_key(k),
        names_key(c, i, k),
    ensures
        extracted(j, seq!['$']) == Some(j),
        j is Object && member(j->Object_0, k) is Some ==> follow(j, c, i) == follow(member(j->Object_0, k)->0, c, i + 1 + k.len()),
        j is Object && member(j->Object_0, k) is None ==> follow(j, c, i) is None,
        !(j is Object) ==> follow(j, c, i) is None,
        follow(j, c, c.len() as int) == Some(j),
{
    let end = i + 1 + k.len();
    assert forall|m: int| i + 1 <= m < end implies #[trigger] c[m] != '.' && c[m] != '[' by {
        assert(k[m - (i + 1)] == c.subrange(i + 1, end)[m - (i + 1)]);
    }
    lemma_key_end(c, i + 1, end);
}

/// An index in brackets leads on from the item at that place of an array, counted from zero.
pub proof fn paths_follow_indexes(j: JsonV, c: Seq<char>, i: int, e: int, k: usize)
    requires
        0 <= i < e < c.len(),
        c[i] == '[',
        c[e] == ']',
        forall|m: int| i < m < e ==> #[trigger] c[m] != ']',
        usize_of(c.subrange(i + 1, e)) == Some(k),
    ensures
        j is Array && k < j->Array_0.len() ==> follow(j, c, i) == follow(j->Array_0[k as int], c, e + 1),
        j is Array && k >= j->Array_0.len() ==> follow(j, c, i) is None,
        !(j is Array) ==> follow(j, c, i) is None,
{
    lemma_index_end(c, i + 1, e);
}

/// The member of a key is the first that has it.
pub proof fn members_are_found(o: Seq<(Seq<char>, JsonV)>, k: Seq<char>, i: int)
    requires
        0 <= i < o.len(),
        o[i].0 == k,
        forall|m: int| 0 <= m < i ==> (#[trigger] o[m]).0 != k,
    ensures
        member(o, k) == Some(o[i].1),
    decreases o.len(),
{
    if i > 0 {
        let rest = o.drop_first();
        assert(o[0].0 != k);
        assert forall|m: int| 0 <= m < i - 1 implies (#[trigger] rest[m]).0 != k by {
            assert(rest[m] == o[m + 1]);
        }
        members_are_found(rest, k, i - 1);
    }
}

/// Where no member has the key there is none.
pub proof fn missing_members_are_not_found(o: Seq<(Seq<char>, JsonV)>, k: Seq<char>)
    requires
        forall|m: int| 0 <= m < o.len() ==> (#[trigger] o[m]).0 != k,
    ensures
        member(o, k) is None,
    decreases o.len(),
{
    if o.len() > 0 {
        assert(o[0].0 != k);
        let rest = o.drop_first();
        assert forall|m: int| 0 <= m < rest.len() implies (#[trigger] rest[m]).0 != k by {
            assert(rest[m] == o[m + 1]);
        }
        missing_members_are_not_found(rest, k);
    }
}

// --- operators and functions ---

/// `doc -> key` gives the member of that key as JSON text, and `doc ->> key` as a value; where the
/// object has no such member both are NULL.
pub proof fn arrows_read_members(env: EnvV, text: Seq<char>, o: Seq<(Seq<char>, JsonV)>, k: Seq<char>)
    requires
        document(text, env.reals) == Ok::<JsonV, Stop>(JsonV::Object(o)),
        plain_key(k),
        k.len() > 0 ==> k[0] != '$',
    ensures
        member(o, k) is Some ==> arrow_value(env, BinOp::JsonGet, ValueV::Text(text), ValueV::Text(k)) == text_value(env, member(o, k)->0),
        member(o, k) is Some ==> arrow_value(env, BinOp::JsonGetText, ValueV::Text(text), ValueV::Text(k)) == sql_value(env, member(o, k)->0),
        member(o, k) is None ==> arrow_value(env, BinOp::JsonGet, ValueV::Text(text), ValueV::Text(k)) == Ok::<ValueV, ErrorV>(ValueV::Null),
        member(o, k) is None ==> arrow_value(env, BinOp::JsonGetText, ValueV::Text(text), ValueV::Text(k)) == Ok::<ValueV, ErrorV>(ValueV::Null),
        arrow_value(env, BinOp::JsonGet, ValueV::Null, ValueV::Text(k)) == Ok::<ValueV, ErrorV>(ValueV::Null),
        arrow_value(env, BinOp::JsonGet, ValueV::Text(text), ValueV::Null) == Ok::<ValueV, ErrorV>(ValueV::Null),
{
    reveal_strlit("$.");
    let c = "$."@ + k;
    assert(c[0] == '$' && c[1] == '.');
    assert(c.subrange(2, 2 + k.len() as int) =~= k);
    assert(names_key(c, 1, k));
    paths_follow_keys(JsonV::Object(o), c, 1, k);
    if member(o, k) is Some {
        paths_follow_keys(member(o, k)->0, c, 1, k);
        assert(c.len() == 2 + k.len());
    }
}

/// A JSON value is read as the value that it writes: a string as its text, a number as the number,
/// `null` as NULL and a truth value as one or zero; anything else as its JSON text.
pub proof fn json_values_are_read(env: EnvV, b: bool, n: i64, r: u64, s: Seq<char>, a: Seq<JsonV>)
    ensures
        sql_value(env, JsonV::Null) == Ok::<ValueV, ErrorV>(ValueV::Null),
        sql_value(env, JsonV::Bool(b)) == Ok::<ValueV, ErrorV>(ValueV::Integer(if b { 1 } else { 0 })),
        sql_value(env, JsonV::Int(n)) == Ok::<ValueV, ErrorV>(ValueV::Integer(n)),
        sql_value(env, JsonV::Float(r)) == Ok::<ValueV, ErrorV>(ValueV::Real(r)),
        sql_value(env, JsonV::Str(s)) == Ok::<ValueV, ErrorV>(ValueV::Text(s)),
        sql_value(env, JsonV::Array(a)) == text_value(env, JsonV::Array(a)),
        json_value(ValueV::Bool(b)) == Ok::<JsonV, ErrorV>(JsonV::Bool(b)),
{
}

/// What the functions say of a document: whether a text is one, and how many items an array has.
pub proof fn documents_are_measured(env: EnvV, name: Seq<char>, text: Seq<char>, j: JsonV)
    requires
        document(text, env.reals) == Ok::<JsonV, Stop>(j),
        j is Array ==> j->Array_0.len() <= i64::MAX,
    ensures
        json_call(env, Func::JsonValid, name, seq![ValueV::Text(text)]) == Ok::<ValueV, ErrorV>(ValueV::Bool(true)),
        j is Array ==> json_call(env, Func::JsonArrayLength, name, seq![ValueV::Text(text)]) == Ok::<ValueV, ErrorV>(ValueV::Integer(j->Array_0.len() as i64)),
        !(j is Array) ==> json_call(env, Func::JsonArrayLength, name, seq![ValueV::Text(text)]) == Ok::<ValueV, ErrorV>(ValueV::Integer(0)),
        json_call(env, Func::Json, name, seq![ValueV::Text(text)]) == text_value(env, j),
{
}

/// A text that is no document is not valid.
pub proof fn other_texts_are_not_valid(env: EnvV, name: Seq<char>, text: Seq<char>)
    requires
        document(text, env.reals) == Err::<JsonV, Stop>(None),
    ensures
        json_call(env, Func::JsonValid, name, seq![ValueV::Text(text)]) == Ok::<ValueV, ErrorV>(ValueV::Bool(false)),
        json_call(env, Func::Json, name, seq![ValueV::Text(text)]) is Err,
{
}

/// `json_extract` with one path gives the value that the path leads to, or NULL.
pub proof fn extraction_reads_one_path(env: EnvV, text: Seq<char>, root: JsonV, path: Seq<char>)
    requires
        document(text, env.reals) == Ok::<JsonV, Stop>(root),
    ensures
        extracted(root, path) is Some ==> extract_call(env, seq![ValueV::Text(text), ValueV::Text(path)]) == sql_value(env, extracted(root, path)->0),
        extracted(root, path) is None ==> extract_call(env, seq![ValueV::Text(text), ValueV::Text(path)]) == Ok::<ValueV, ErrorV>(ValueV::Null),
{
    let a = seq![ValueV::Text(text), ValueV::Text(path)];
    assert(a[0] == ValueV::Text(text) && a[1] == ValueV::Text(path));
    assert(!crate::exec::functions::any_null(a));
}

/// `json_array` holds its arguments, in their order.
pub proof fn arrays_hold_their_arguments(a: Seq<ValueV>, from: int)
    requires
        0 <= from <= a.len(),
        items_from(a, from) is Ok,
    ensures
        items_from(a, from)->Ok_0.len() == a.len() - from,
        forall|i: int| from <= i < a.len() ==> json_value(#[trigger] a[i]) == Ok::<JsonV, ErrorV>(items_from(a, from)->Ok_0[i - from]),
    decreases a.len() - from,
{
    if from < a.len() {
        arrays_hold_their_arguments(a, from + 1);
        let rest = items_from(a, from + 1)->Ok_0;
        let all = items_from(a, from)->Ok_0;
        assert forall|i: int| from <= i < a.len() implies json_value(#[trigger] a[i]) == Ok::<JsonV, ErrorV>(all[i - from]) by {
            if i > from {
                assert(all[i - from] == rest[i - (from + 1)]);
            }
        }
    }
}

/// `json_object` pairs each key with the value behind it, in their order.
pub proof fn objects_hold_their_pairs(env: EnvV, name: Seq<char>, a: Seq<ValueV>, i: int, k: Seq<char>)
    requires
        0 <= i,
        i + 1 < a.len(),
        a[i] == ValueV::Text(k),
        members_from(env, name, a, i) is Ok,
    ensures
        ({
            let m = members_from(env, name, a, i)->Ok_0;
            &&& m.len() > 0
            &&& m[0].0 == k
            &&& json_value(a[i + 1]) == Ok::<JsonV, ErrorV>(m[0].1)
            &&& members_from(env, name, a, i + 2) == Ok::<Seq<(Seq<char>, JsonV)>, ErrorV>(m.drop_first())
        }),
{
    let m = members_from(env, name, a, i)->Ok_0;
    let rest = members_from(env, name, a, i + 2)->Ok_0;
    assert(m.drop_first() =~= rest);
}

} // verus!
