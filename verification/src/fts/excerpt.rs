//! Excerpts of a text with the terms of a query marked.
use vstd::prelude::*;
use vstd::string::StringExecFns;

use crate::fts::query::{Query, QueryV};
use crate::fts::tokenizer::{Token, TokenV, Tokenizer};
#[allow(unused_imports)]
use crate::fts::tokenizer::{placed, tokens_v};
#[allow(unused_imports)]
use crate::catalog::strings_v;
use crate::text::{chars_of, slice_of, str_eq};
#[allow(unused_imports)]
use crate::text::{boundary, char_index, lemma_text_bytes, slice, text_width};

verus! {

// --- what is marked ---

pub open spec fn exact(words: Seq<Seq<char>>) -> Seq<(Seq<char>, bool)> {
    Seq::new(words.len(), |i: int| (words[i], false))
}

/// The words of a query that a match contains, each with whether it stands for
/// every word that begins with it. What `NOT` excludes is not among them.
pub open spec fn positive_terms(q: QueryV) -> Seq<(Seq<char>, bool)>
    decreases q,
{
    match q {
        QueryV::Term { text, prefix } => seq![(text, prefix)],
        QueryV::Phrase(words) => exact(words),
        QueryV::Near { terms, distance: _ } => exact(terms),
        QueryV::Column { column: _, query } => positive_terms(*query),
        QueryV::And(a, b) => positive_terms(*a) + positive_terms(*b),
        QueryV::Or(a, b) => positive_terms(*a) + positive_terms(*b),
        QueryV::Not(a, _) => positive_terms(*a),
    }
}

pub open spec fn marks_v(s: Seq<(String, bool)>) -> Seq<(Seq<char>, bool)> {
    Seq::new(s.len(), |i: int| (s[i].0@, s[i].1))
}

/// What the tokens of one word mark. A word of several tokens is no prefix.
pub open spec fn word_marks(toks: Seq<TokenV>, prefix: bool) -> Seq<(Seq<char>, bool)> {
    Seq::new(toks.len(), |i: int| (toks[i].text, prefix && toks.len() == 1))
}

/// What the words from `i` on mark, as the tokenizer writes them.
pub open spec fn marks_from<T: Tokenizer>(tk: &T, raw: Seq<(Seq<char>, bool)>, i: int) -> Seq<
    (Seq<char>, bool),
>
    decreases raw.len() - i,
{
    if i < 0 || i >= raw.len() {
        Seq::empty()
    } else {
        word_marks(tk.tokens(raw[i].0), raw[i].1) + marks_from(tk, raw, i + 1)
    }
}

pub open spec fn marks<T: Tokenizer>(tk: &T, q: QueryV) -> Seq<(Seq<char>, bool)> {
    marks_from(tk, positive_terms(q), 0)
}

/// A word is marked by one of `marks`.
pub open spec fn marked(word: Seq<char>, marks: Seq<(Seq<char>, bool)>) -> bool {
    exists|i: int|
        0 <= i < marks.len() && (if (#[trigger] marks[i]).1 {
            marks[i].0.is_prefix_of(word)
        } else {
            marks[i].0 == word
        })
}

fn push_exact(words: &Vec<String>, out: &mut Vec<(String, bool)>)
    ensures
        marks_v(final(out)@) == marks_v(old(out)@) + exact(strings_v(words@)),
{
    let n: usize = words.len();
    let ghost want = exact(strings_v(words@));
    assert(marks_v(out@) =~= marks_v(old(out)@) + want.take(0));
    for i in 0..n
        invariant
            n == words@.len(),
            want == exact(strings_v(words@)),
            marks_v(out@) == marks_v(old(out)@) + want.take(i as int),
    {
        let ghost before = marks_v(out@);
        out.push((words[i].clone(), false));
        assert(marks_v(out@) =~= before.push(want[i as int]));
        assert(want.take(i + 1) =~= want.take(i as int).push(want[i as int]));
    }
    assert(want.take(n as int) =~= want);
}

fn push_positive(q: &Query, out: &mut Vec<(String, bool)>)
    ensures
        marks_v(final(out)@) == marks_v(old(out)@) + positive_terms(q@),
    decreases q,
{
    match q {
        Query::Term { text, prefix } => {
            out.push((text.clone(), *prefix));
            assert(marks_v(out@) =~= marks_v(old(out)@) + positive_terms(q@));
        },
        Query::Phrase(words) => push_exact(words, out),
        Query::Near { terms, distance: _ } => push_exact(terms, out),
        Query::Column { column: _, query } => push_positive(query, out),
        Query::And(a, b) => {
            push_positive(a, out);
            push_positive(b, out);
            assert(marks_v(out@) =~= marks_v(old(out)@) + positive_terms(q@));
        },
        Query::Or(a, b) => {
            push_positive(a, out);
            push_positive(b, out);
            assert(marks_v(out@) =~= marks_v(old(out)@) + positive_terms(q@));
        },
        Query::Not(a, _) => push_positive(a, out),
    }
}

fn highlight_targets<T: Tokenizer>(q: &Query, tk: &T) -> (r: Vec<(String, bool)>)
    ensures
        marks_v(r@) == marks(tk, q@),
{
    let mut raw: Vec<(String, bool)> = Vec::new();
    push_positive(q, &mut raw);
    assert(marks_v(raw@) =~= positive_terms(q@));
    let mut out: Vec<(String, bool)> = Vec::new();
    let n: usize = raw.len();
    let ghost words = positive_terms(q@);
    let ghost all = marks_from(tk, words, 0);
    assert(marks_v(out@) + all =~= all);
    for i in 0..n
        invariant
            n == raw@.len(),
            words == marks_v(raw@),
            all == marks_v(out@) + marks_from(tk, words, i as int),
    {
        assert(words[i as int] == (raw@[i as int].0@, raw@[i as int].1));
        let mut buf: Vec<Token> = Vec::new();
        tk.tokenize(raw[i].0.as_str(), &mut buf);
        assert(tokens_v(buf@) =~= tk.tokens(words[i as int].0));
        let ghost before = marks_v(out@);
        let m: usize = buf.len();
        let prefix: bool = raw[i].1 && m == 1;
        let ghost w = word_marks(tk.tokens(words[i as int].0), raw@[i as int].1);
        assert(marks_v(out@) =~= before + w.take(0));
        for j in 0..m
            invariant
                m == buf@.len(),
                i < n == raw@.len(),
                words == marks_v(raw@),
                words[i as int] == (raw@[i as int].0@, raw@[i as int].1),
                tokens_v(buf@) == tk.tokens(words[i as int].0),
                prefix == (raw@[i as int].1 && m == 1),
                w == word_marks(tk.tokens(words[i as int].0), raw@[i as int].1),
                marks_v(out@) == before + w.take(j as int),
        {
            let ghost mid = marks_v(out@);
            assert(tokens_v(buf@)[j as int] == buf@[j as int]@);
            out.push((buf[j].text.clone(), prefix));
            assert(marks_v(out@) =~= mid.push(w[j as int]));
            assert(w.take(j + 1) =~= w.take(j as int).push(w[j as int]));
        }
        assert(w.take(m as int) =~= w);
        assert(before + (w + marks_from(tk, words, i + 1)) =~= marks_v(out@) + marks_from(
            tk,
            words,
            i + 1,
        ));
    }
    assert(marks_v(out@) + Seq::<(Seq<char>, bool)>::empty() =~= marks_v(out@));
    out
}

fn starts_with(word: &str, prefix: &str) -> (r: bool)
    ensures
        r == prefix@.is_prefix_of(word@),
{
    let w = chars_of(word);
    let p = chars_of(prefix);
    if p.len() > w.len() {
        return false;
    }
    let n: usize = p.len();
    for i in 0..n
        invariant
            n == p@.len() <= w@.len(),
            w@ == word@,
            p@ == prefix@,
            forall|k: int| 0 <= k < i ==> p@[k] == w@[k],
    {
        if p[i] != w[i] {
            assert(prefix@[i as int] != word@.subrange(0, n as int)[i as int]);
            return false;
        }
    }
    assert(prefix@ =~= word@.subrange(0, n as int));
    true
}

fn token_matches(word: &str, targets: &Vec<(String, bool)>) -> (r: bool)
    ensures
        r == marked(word@, marks_v(targets@)),
{
    let n: usize = targets.len();
    let ghost m = marks_v(targets@);
    for i in 0..n
        invariant
            n == targets@.len(),
            m == marks_v(targets@),
            forall|k: int|
                0 <= k < i ==> !(if (#[trigger] m[k]).1 {
                    m[k].0.is_prefix_of(word@)
                } else {
                    m[k].0 == word@
                }),
    {
        let hit = if targets[i].1 {
            starts_with(word, targets[i].0.as_str())
        } else {
            str_eq(targets[i].0.as_str(), word)
        };
        assert(m[i as int] == (targets@[i as int].0@, targets@[i as int].1));
        if hit {
            return true;
        }
    }
    false
}

// --- writing the excerpt ---

/// The text from byte `last` to byte `end`, with the tokens from `i` up to `stop`
/// that are marked wrapped in `open` and `close`.
pub open spec fn wrapped(
    text: Seq<char>,
    toks: Seq<TokenV>,
    i: int,
    stop: int,
    targets: Seq<(Seq<char>, bool)>,
    open_: Seq<char>,
    close: Seq<char>,
    last: nat,
    end: nat,
) -> Seq<char>
    decreases stop - i,
{
    if i < 0 || i >= stop {
        slice(text, last, end)
    } else {
        let t = toks[i];
        if marked(t.text, targets) {
            slice(text, last, t.byte_start) + open_ + slice(text, t.byte_start, t.byte_end) + close
                + wrapped(text, toks, i + 1, stop, targets, open_, close, t.byte_end, end)
        } else {
            wrapped(text, toks, i + 1, stop, targets, open_, close, last, end)
        }
    }
}

fn push_slice(out: &mut String, text: &str, lo: usize, hi: usize)
    requires
        lo <= hi,
        boundary(text@, lo as nat),
        boundary(text@, hi as nat),
    ensures
        final(out)@ == old(out)@ + slice(text@, lo as nat, hi as nat),
{
    if let Some(s) = slice_of(text, lo, hi) {
        out.append(s);
    }
}

fn wrap(
    text: &str,
    toks: &Vec<Token>,
    from: usize,
    stop: usize,
    targets: &Vec<(String, bool)>,
    open_: &str,
    close: &str,
    first: usize,
    end: usize,
    out: &mut String,
)
    requires
        from <= stop <= toks@.len(),
        placed(tokens_v(toks@), text@),
        boundary(text@, first as nat),
        boundary(text@, end as nat),
        first <= end,
        forall|k: int|
            from <= k < stop ==> first <= (#[trigger] tokens_v(toks@)[k]).byte_start && tokens_v(
                toks@,
            )[k].byte_end <= end,
    ensures
        final(out)@ == old(out)@ + wrapped(
            text@,
            tokens_v(toks@),
            from as int,
            stop as int,
            marks_v(targets@),
            open_@,
            close@,
            first as nat,
            end as nat,
        ),
{
    let ghost tv = tokens_v(toks@);
    let ghost m = marks_v(targets@);
    let ghost all = out@ + wrapped(
        text@,
        tv,
        from as int,
        stop as int,
        m,
        open_@,
        close@,
        first as nat,
        end as nat,
    );
    let mut last: usize = first;
    for i in from..stop
        invariant
            from <= stop <= toks@.len(),
            tv == tokens_v(toks@),
            m == marks_v(targets@),
            placed(tv, text@),
            boundary(text@, last as nat),
            boundary(text@, end as nat),
            last <= end,
            forall|k: int|
                i <= k < stop ==> last <= (#[trigger] tv[k]).byte_start && tv[k].byte_end <= end,
            all == out@ + wrapped(
                text@,
                tv,
                i as int,
                stop as int,
                m,
                open_@,
                close@,
                last as nat,
                end as nat,
            ),
    {
        assert(tv[i as int] == toks@[i as int]@);
        if token_matches(toks[i].text.as_str(), targets) {
            let ghost before = out@;
            let ghost rest = wrapped(
                text@,
                tv,
                i + 1,
                stop as int,
                m,
                open_@,
                close@,
                tv[i as int].byte_end,
                end as nat,
            );
            push_slice(out, text, last, toks[i].byte_start);
            out.append(open_);
            push_slice(out, text, toks[i].byte_start, toks[i].byte_end);
            out.append(close);
            last = toks[i].byte_end;
            assert(all =~= out@ + rest);
        }
    }
    push_slice(out, text, last, end);
}

pub open spec fn highlighted<T: Tokenizer>(
    text: Seq<char>,
    q: QueryV,
    tk: &T,
    open_: Seq<char>,
    close: Seq<char>,
) -> Seq<char> {
    let toks = tk.tokens(text);
    wrapped(text, toks, 0, toks.len() as int, marks(tk, q), open_, close, 0, text_width(text))
}

proof fn lemma_ends(text: Seq<char>)
    ensures
        boundary(text, 0),
        boundary(text, text_width(text)),
{
    assert(text.take(0) =~= Seq::empty());
    assert(text.take(text.len() as int) =~= text);
}

proof fn lemma_boundary_limit(text: Seq<char>, at: nat)
    requires
        boundary(text, at),
    ensures
        at <= text_width(text),
{
    let k = choose|k: int| 0 <= k <= text.len() && text_width(#[trigger] text.take(k)) == at;
    crate::text::lemma_take_width(text, k, text.len() as int);
    assert(text.take(text.len() as int) =~= text);
}

/// The whole text with every token that a positive term of the query marks wrapped
/// in `open_` and `close`.
pub fn highlight<T: Tokenizer>(text: &str, q: &Query, tk: &T, open_: &str, close: &str) -> (r: String)
    ensures
        r@ == highlighted(text@, q@, tk, open_@, close@),
{
    let targets = highlight_targets(q, tk);
    let mut toks: Vec<Token> = Vec::new();
    tk.tokenize(text, &mut toks);
    assert(tokens_v(toks@) =~= tk.tokens(text@));
    let end: usize = text.as_bytes().len();
    proof {
        lemma_text_bytes(text@);
        lemma_ends(text@);
        assert forall|k: int| 0 <= k < toks@.len() implies (#[trigger] tokens_v(toks@)[k]).byte_end
            <= end by {
            lemma_boundary_limit(text@, tokens_v(toks@)[k].byte_end);
        }
    }
    let mut out = String::new();
    wrap(text, &toks, 0, toks.len(), &targets, open_, close, 0, end, &mut out);
    assert(out@ =~= highlighted(text@, q@, tk, open_@, close@));
    out
}

/// The first token from `i` on that is marked; the first of all where none is.
pub open spec fn first_marked(toks: Seq<TokenV>, targets: Seq<(Seq<char>, bool)>, i: int) -> int
    decreases toks.len() - i,
{
    if i < 0 || i >= toks.len() {
        0
    } else if marked(toks[i].text, targets) {
        i
    } else {
        first_marked(toks, targets, i + 1)
    }
}

/// The window of at most `max` of `n` tokens round the token `center`.
pub open spec fn window(center: int, n: int, max: int) -> (int, int) {
    let start = if center < max / 2 {
        0
    } else {
        center - max / 2
    };
    let end = if start + max < n {
        start + max
    } else {
        n
    };
    (
        if end < max {
            0
        } else {
            end - max
        },
        end,
    )
}

pub open spec fn snipped<T: Tokenizer>(
    text: Seq<char>,
    q: QueryV,
    tk: &T,
    open_: Seq<char>,
    close: Seq<char>,
    ellipsis: Seq<char>,
    max: int,
) -> Seq<char> {
    let toks = tk.tokens(text);
    let targets = marks(tk, q);
    if toks.len() == 0 || max == 0 {
        Seq::empty()
    } else {
        let (start, end) = window(first_marked(toks, targets, 0), toks.len() as int, max);
        (if start > 0 {
            ellipsis
        } else {
            Seq::empty()
        }) + wrapped(
            text,
            toks,
            start,
            end,
            targets,
            open_,
            close,
            toks[start].byte_start,
            toks[end - 1].byte_end,
        ) + (if end < toks.len() {
            ellipsis
        } else {
            Seq::empty()
        })
    }
}

/// At most `max_tokens` tokens of the text round the first one that is marked, with
/// `ellipsis` where the text is cut.
pub fn snippet<T: Tokenizer>(
    text: &str,
    q: &Query,
    tk: &T,
    open_: &str,
    close: &str,
    ellipsis: &str,
    max_tokens: usize,
) -> (r: String)
    ensures
        r@ == snipped(text@, q@, tk, open_@, close@, ellipsis@, max_tokens as int),
{
    let targets = highlight_targets(q, tk);
    let mut toks: Vec<Token> = Vec::new();
    tk.tokenize(text, &mut toks);
    let ghost tv = tk.tokens(text@);
    let ghost m = marks(tk, q@);
    assert(tokens_v(toks@) =~= tv);
    let n: usize = toks.len();
    if n == 0 || max_tokens == 0 {
        return String::new();
    }
    let mut center: usize = 0;
    while center < n && !token_matches(toks[center].text.as_str(), &targets)
        invariant
            center <= n == toks@.len(),
            tv == tokens_v(toks@),
            m == marks_v(targets@),
            first_marked(tv, m, 0) == first_marked(tv, m, center as int),
        decreases n - center,
    {
        assert(tv[center as int] == toks@[center as int]@);
        center = center + 1;
    }
    assert(center < n ==> tv[center as int] == toks@[center as int]@);
    if center == n {
        center = 0;
    }
    let half: usize = max_tokens / 2;
    let lo: usize = if center < half {
        0
    } else {
        center - half
    };
    let end: usize = if max_tokens < n - lo {
        lo + max_tokens
    } else {
        n
    };
    let start: usize = if end < max_tokens {
        0
    } else {
        end - max_tokens
    };
    assert(window(first_marked(tv, m, 0), n as int, max_tokens as int) == (
        start as int,
        end as int,
    ));
    assert(tv[start as int] == toks@[start as int]@);
    assert(tv[end - 1] == toks@[end - 1]@);
    let mut out = String::new();
    if start > 0 {
        out.append(ellipsis);
    }
    let ghost head = out@;
    let first: usize = toks[start].byte_start;
    let to: usize = toks[end - 1].byte_end;
    proof {
        assert forall|k: int| start <= k < end implies first <= (#[trigger] tv[k]).byte_start
            && tv[k].byte_end <= to by {
            if k > start {
                assert(tv[start as int].byte_end <= tv[k].byte_start);
            }
            if k < end - 1 {
                assert(tv[k].byte_end <= tv[end - 1].byte_start);
            }
        }
        assert(first <= tv[end - 1].byte_start);
    }
    wrap(text, &toks, start, end, &targets, open_, close, first, to, &mut out);
    if end < n {
        out.append(ellipsis);
    }
    assert(out@ =~= snipped(text@, q@, tk, open_@, close@, ellipsis@, max_tokens as int));
    out
}

// --- the marks come out again ---

/// A later offset is not before an earlier character.
proof fn lemma_char_index(s: Seq<char>, a: nat, b: nat)
    requires
        a <= b,
    ensures
        char_index(s, a) <= char_index(s, b) <= s.len(),
    decreases s.len(),
{
    if s.len() > 0 {
        lemma_char_index(s.drop_last(), a, b);
    }
}

proof fn lemma_first_index(s: Seq<char>)
    ensures
        char_index(s, 0) == 0,
    decreases s.len(),
{
    if s.len() > 0 {
        crate::text::lemma_take_width(s, 0, s.len() as int);
        assert(s.take(s.len() as int) =~= s);
        lemma_first_index(s.drop_last());
    }
}

proof fn lemma_all_kept(s: Seq<char>, keep: spec_fn(char) -> bool)
    requires
        forall|i: int| 0 <= i < s.len() ==> keep(#[trigger] s[i]),
    ensures
        s.filter(keep) == s,
    decreases s.len(),
{
    reveal(Seq::filter);
    if s.len() > 0 {
        let t = s.drop_last();
        assert forall|i: int| 0 <= i < t.len() implies keep(#[trigger] t[i]) by {
            assert(t[i] == s[i]);
        }
        lemma_all_kept(t, keep);
        assert(keep(s[s.len() - 1]));
        assert(s =~= t.push(s.last()));
    } else {
        assert(s.filter(keep) =~= s);
    }
}

proof fn lemma_none_kept(s: Seq<char>, keep: spec_fn(char) -> bool)
    requires
        forall|i: int| 0 <= i < s.len() ==> !keep(#[trigger] s[i]),
    ensures
        s.filter(keep) == Seq::<char>::empty(),
    decreases s.len(),
{
    reveal(Seq::filter);
    if s.len() > 0 {
        let t = s.drop_last();
        assert forall|i: int| 0 <= i < t.len() implies !keep(#[trigger] t[i]) by {
            assert(t[i] == s[i]);
        }
        lemma_none_kept(t, keep);
        assert(!keep(s[s.len() - 1]));
    } else {
        assert(s.filter(keep) =~= Seq::<char>::empty());
    }
}

proof fn lemma_wrapped_kept(
    text: Seq<char>,
    toks: Seq<TokenV>,
    i: int,
    targets: Seq<(Seq<char>, bool)>,
    open_: Seq<char>,
    close: Seq<char>,
    last: nat,
    end: nat,
    keep: spec_fn(char) -> bool,
)
    requires
        0 <= i <= toks.len(),
        placed(toks, text),
        last <= end,
        forall|k: int|
            i <= k < toks.len() ==> last <= (#[trigger] toks[k]).byte_start && toks[k].byte_end <= end,
        open_.filter(keep) == Seq::<char>::empty(),
        close.filter(keep) == Seq::<char>::empty(),
    ensures
        wrapped(text, toks, i, toks.len() as int, targets, open_, close, last, end).filter(keep)
            == slice(text, last, end).filter(keep),
    decreases toks.len() - i,
{
    broadcast use Seq::filter_distributes_over_add;

    if i < toks.len() {
        let t = toks[i];
        if marked(t.text, targets) {
            let rest = wrapped(text, toks, i + 1, toks.len() as int, targets, open_, close, t.byte_end, end);
            let head = slice(text, last, t.byte_start);
            let word = slice(text, t.byte_start, t.byte_end);
            let tail = slice(text, t.byte_end, end);
            lemma_wrapped_kept(text, toks, i + 1, targets, open_, close, t.byte_end, end, keep);
            lemma_char_index(text, last, t.byte_start);
            lemma_char_index(text, t.byte_start, t.byte_end);
            lemma_char_index(text, t.byte_end, end);
            assert(slice(text, last, end) =~= head + word + tail);
            assert((head + open_ + word + close + rest).filter(keep) =~= head.filter(keep)
                + word.filter(keep) + rest.filter(keep));
            assert((head + word + tail).filter(keep) =~= head.filter(keep) + word.filter(keep)
                + tail.filter(keep));
        } else {
            lemma_wrapped_kept(text, toks, i + 1, targets, open_, close, last, end, keep);
        }
    }
}

proof fn lemma_highlighted_kept<T: Tokenizer>(
    text: Seq<char>,
    q: QueryV,
    tk: &T,
    open_: Seq<char>,
    close: Seq<char>,
    keep: spec_fn(char) -> bool,
)
    requires
        placed(tk.tokens(text), text),
        forall|i: int| 0 <= i < text.len() ==> keep(#[trigger] text[i]),
        forall|i: int| 0 <= i < open_.len() ==> !keep(#[trigger] open_[i]),
        forall|i: int| 0 <= i < close.len() ==> !keep(#[trigger] close[i]),
    ensures
        highlighted(text, q, tk, open_, close).filter(keep) == text,
{
    let toks = tk.tokens(text);
    let end = text_width(text);
    assert forall|k: int| 0 <= k < toks.len() implies (#[trigger] toks[k]).byte_end <= end by {
        lemma_boundary_limit(text, toks[k].byte_end);
    }
    lemma_none_kept(open_, keep);
    lemma_none_kept(close, keep);
    lemma_wrapped_kept(text, toks, 0, marks(tk, q), open_, close, 0, end, keep);
    lemma_first_index(text);
    assert(slice(text, 0, end) =~= text);
    lemma_all_kept(text, keep);
}

/// With empty marks a text is highlighted as it is.
pub proof fn empty_marks_leave_the_text<T: Tokenizer>(text: Seq<char>, q: QueryV, tk: &T)
    requires
        placed(tk.tokens(text), text),
    ensures
        highlighted(text, q, tk, Seq::empty(), Seq::empty()) == text,
{
    let keep = |c: char| true;
    let r = highlighted(text, q, tk, Seq::empty(), Seq::empty());
    lemma_highlighted_kept(text, q, tk, Seq::empty(), Seq::empty(), keep);
    lemma_all_kept(r, keep);
}

/// Where the two marks do not occur in a text, taking them out of its highlighted form gives
/// the text back.
pub proof fn marks_come_out<T: Tokenizer>(text: Seq<char>, q: QueryV, tk: &T, o: char, c: char)
    requires
        placed(tk.tokens(text), text),
        !text.contains(o),
        !text.contains(c),
    ensures
        highlighted(text, q, tk, seq![o], seq![c]).filter(|x: char| x != o && x != c) == text,
{
    let keep = |x: char| x != o && x != c;
    assert forall|i: int| 0 <= i < text.len() implies keep(#[trigger] text[i]) by {
        assert(text.contains(text[i]));
    }
    lemma_highlighted_kept(text, q, tk, seq![o], seq![c], keep);
}

} // verus!
