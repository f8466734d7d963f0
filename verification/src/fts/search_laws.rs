//! What full-text search is for: what a query means, what the words of a text are, how often they
//! occur, and which of them are shown.
#[allow(unused_imports)]
use vstd::prelude::*;

#[allow(unused_imports)]
use crate::error::ErrorV;
#[allow(unused_imports)]
use crate::fts::excerpt::{first_marked, marked, marks, positive_terms, window, wrapped};
#[allow(unused_imports)]
use crate::fts::query::{
    and_at, and_rest, at, closing_quote, ends_word, near_at, not_at, not_rest, or_at, or_rest, part_end, primary_at,
    query_word_end, sign, starts_primary, word_run, words_from, QTokV, QueryV,
};
#[allow(unused_imports)]
use crate::fts::ranking::{document, occurrences};
#[allow(unused_imports)]
use crate::fts::tokenizer::{lemma_word_end, tokens_from, unicode_normal, word_char, word_end, word_token, TokenV, Tokenizer};
#[allow(unused_imports)]
use crate::record::ValueV;
#[allow(unused_imports)]
use crate::text::{ascii_lower_all, is_space, slice, text_width};

verus! {

// --- queries ---

pub open spec fn term(w: Seq<char>) -> QueryV {
    QueryV::Term { text: w, prefix: false }
}

/// The word `w` stands at `i`, with neither a colon nor a star behind it.
pub open spec fn plain_word(t: Seq<QTokV>, i: int, w: Seq<char>) -> bool {
    at(t, i) == Some(QTokV::Word(w)) && at(t, i + 1) != Some(QTokV::Colon) && at(t, i + 1) != Some(QTokV::Star)
}

proof fn lemma_word(t: Seq<QTokV>, i: int, w: Seq<char>)
    requires
        plain_word(t, i, w),
    ensures
        primary_at(t, i) == Ok::<(QueryV, int), ErrorV>((term(w), i + 1)),
        at(t, i + 1) != Some(QTokV::Not) ==> not_at(t, i) == Ok::<(QueryV, int), ErrorV>((term(w), i + 1)),
{
    assert(primary_at(t, i) == Ok::<(QueryV, int), ErrorV>((term(w), i + 1)));
    if at(t, i + 1) != Some(QTokV::Not) {
        assert(not_rest(t, term(w), i + 1) == Ok::<(QueryV, int), ErrorV>((term(w), i + 1)));
    }
}

/// What a query asks for by itself: a word, every word with a beginning, words next to each other,
/// or a query on one column.
pub proof fn words_and_phrases_are_read(t: Seq<QTokV>, i: int, w: Seq<char>, q: QueryV, j: int)
    ensures
        plain_word(t, i, w) ==> primary_at(t, i) == Ok::<(QueryV, int), ErrorV>((QueryV::Term { text: w, prefix: false }, i + 1)),
        at(t, i) == Some(QTokV::Word(w)) && at(t, i + 1) == Some(QTokV::Star) ==> primary_at(t, i) == Ok::<(QueryV, int), ErrorV>((QueryV::Term { text: w, prefix: true }, i + 2)),
        at(t, i) == Some(QTokV::Phrase(w)) ==> primary_at(t, i) == Ok::<(QueryV, int), ErrorV>((QueryV::Phrase(words_from(w, 0)), i + 1)),
        at(t, i) == Some(QTokV::Word(w)) && at(t, i + 1) == Some(QTokV::Colon) && primary_at(t, i + 2) == Ok::<(QueryV, int), ErrorV>((q, j)) ==> primary_at(t, i) == Ok::<(QueryV, int), ErrorV>((QueryV::Column { column: w, query: Box::new(q) }, j)),
        at(t, i) == Some(QTokV::LParen) && or_at(t, i + 1) == Ok::<(QueryV, int), ErrorV>((q, j)) && at(t, j) == Some(QTokV::RParen) ==> primary_at(t, i) == Ok::<(QueryV, int), ErrorV>((q, j + 1)),
{
}

/// OR, AND and NOT take what follows as their second side, and what stands before, all of it, as
/// their first. Two queries side by side are joined by AND.
pub proof fn operators_of_a_query_go_from_the_left(t: Seq<QTokV>, l: QueryV, i: int, r: QueryV, j: int)
    requires
        i < j <= t.len(),
    ensures
        at(t, i) == Some(QTokV::Or) && and_at(t, i + 1) == Ok::<(QueryV, int), ErrorV>((r, j)) ==> or_rest(t, l, i) == or_rest(t, QueryV::Or(Box::new(l), Box::new(r)), j),
        at(t, i) == Some(QTokV::And) && not_at(t, i + 1) == Ok::<(QueryV, int), ErrorV>((r, j)) ==> and_rest(t, l, i) == and_rest(t, QueryV::And(Box::new(l), Box::new(r)), j),
        starts_primary(at(t, i)) && not_at(t, i) == Ok::<(QueryV, int), ErrorV>((r, j)) ==> and_rest(t, l, i) == and_rest(t, QueryV::And(Box::new(l), Box::new(r)), j),
        at(t, i) == Some(QTokV::Not) && primary_at(t, i + 1) == Ok::<(QueryV, int), ErrorV>((r, j)) ==> not_rest(t, l, i) == not_rest(t, QueryV::Not(Box::new(l), Box::new(r)), j),
        or_rest(t, l, t.len() as int) == Ok::<(QueryV, int), ErrorV>((l, t.len() as int)),
        and_rest(t, l, t.len() as int) == Ok::<(QueryV, int), ErrorV>((l, t.len() as int)),
        not_rest(t, l, t.len() as int) == Ok::<(QueryV, int), ErrorV>((l, t.len() as int)),
{
}

/// In a query of three words NOT binds tightest, then AND, then OR.
pub proof fn not_binds_tighter_than_and_than_or(x: Seq<char>, y: Seq<char>, z: Seq<char>)
    ensures
        or_at(seq![QTokV::Word(x), QTokV::Or, QTokV::Word(y), QTokV::And, QTokV::Word(z)], 0) == Ok::<(QueryV, int), ErrorV>((QueryV::Or(Box::new(term(x)), Box::new(QueryV::And(Box::new(term(y)), Box::new(term(z))))), 5)),
        or_at(seq![QTokV::Word(x), QTokV::And, QTokV::Word(y), QTokV::Or, QTokV::Word(z)], 0) == Ok::<(QueryV, int), ErrorV>((QueryV::Or(Box::new(QueryV::And(Box::new(term(x)), Box::new(term(y)))), Box::new(term(z))), 5)),
        or_at(seq![QTokV::Word(x), QTokV::And, QTokV::Word(y), QTokV::Not, QTokV::Word(z)], 0) == Ok::<(QueryV, int), ErrorV>((QueryV::And(Box::new(term(x)), Box::new(QueryV::Not(Box::new(term(y)), Box::new(term(z))))), 5)),
{
    let t = seq![QTokV::Word(x), QTokV::Or, QTokV::Word(y), QTokV::And, QTokV::Word(z)];
    lemma_word(t, 0, x);
    lemma_word(t, 2, y);
    lemma_word(t, 4, z);
    let yz = QueryV::And(Box::new(term(y)), Box::new(term(z)));
    assert(and_rest(t, term(x), 1) == Ok::<(QueryV, int), ErrorV>((term(x), 1)));
    assert(and_at(t, 0) == Ok::<(QueryV, int), ErrorV>((term(x), 1)));
    assert(and_rest(t, yz, 5) == Ok::<(QueryV, int), ErrorV>((yz, 5)));
    assert(and_rest(t, term(y), 3) == and_rest(t, yz, 5));
    assert(and_at(t, 2) == Ok::<(QueryV, int), ErrorV>((yz, 5)));
    let q = QueryV::Or(Box::new(term(x)), Box::new(yz));
    assert(or_rest(t, q, 5) == Ok::<(QueryV, int), ErrorV>((q, 5)));
    assert(or_rest(t, term(x), 1) == or_rest(t, q, 5));

    let u = seq![QTokV::Word(x), QTokV::And, QTokV::Word(y), QTokV::Or, QTokV::Word(z)];
    lemma_word(u, 0, x);
    lemma_word(u, 2, y);
    lemma_word(u, 4, z);
    let xy = QueryV::And(Box::new(term(x)), Box::new(term(y)));
    assert(and_rest(u, xy, 3) == Ok::<(QueryV, int), ErrorV>((xy, 3)));
    assert(and_rest(u, term(x), 1) == and_rest(u, xy, 3));
    assert(and_at(u, 0) == Ok::<(QueryV, int), ErrorV>((xy, 3)));
    assert(and_rest(u, term(z), 5) == Ok::<(QueryV, int), ErrorV>((term(z), 5)));
    assert(and_at(u, 4) == Ok::<(QueryV, int), ErrorV>((term(z), 5)));
    let p = QueryV::Or(Box::new(xy), Box::new(term(z)));
    assert(or_rest(u, p, 5) == Ok::<(QueryV, int), ErrorV>((p, 5)));
    assert(or_rest(u, xy, 3) == or_rest(u, p, 5));

    let v = seq![QTokV::Word(x), QTokV::And, QTokV::Word(y), QTokV::Not, QTokV::Word(z)];
    lemma_word(v, 0, x);
    lemma_word(v, 2, y);
    lemma_word(v, 4, z);
    let n = QueryV::Not(Box::new(term(y)), Box::new(term(z)));
    assert(not_rest(v, n, 5) == Ok::<(QueryV, int), ErrorV>((n, 5)));
    assert(not_rest(v, term(y), 3) == not_rest(v, n, 5));
    assert(not_at(v, 2) == Ok::<(QueryV, int), ErrorV>((n, 5)));
    let r = QueryV::And(Box::new(term(x)), Box::new(n));
    assert(and_rest(v, r, 5) == Ok::<(QueryV, int), ErrorV>((r, 5)));
    assert(and_rest(v, term(x), 1) == and_rest(v, r, 5));
    assert(and_at(v, 0) == Ok::<(QueryV, int), ErrorV>((r, 5)));
    assert(or_rest(v, r, 5) == Ok::<(QueryV, int), ErrorV>((r, 5)));
}

/// NEAR takes its words in their order, and the distance that is written, or 10.
pub proof fn near_keeps_its_words(x: Seq<char>, y: Seq<char>)
    ensures
        near_at(seq![QTokV::Near, QTokV::LParen, QTokV::Word(x), QTokV::Word(y), QTokV::RParen], 0) == Ok::<(QueryV, int), ErrorV>((QueryV::Near { terms: seq![x, y], distance: 10 }, 5)),
        near_at(seq![QTokV::Near, QTokV::LParen, QTokV::Word(x), QTokV::RParen], 0) is Err,
{
    let t = seq![QTokV::Near, QTokV::LParen, QTokV::Word(x), QTokV::Word(y), QTokV::RParen];
    reveal_with_fuel(word_run, 3);
    assert(word_run(t, 2) =~= seq![x, y]);
    let u = seq![QTokV::Near, QTokV::LParen, QTokV::Word(x), QTokV::RParen];
    assert(word_run(u, 2) =~= seq![x]);
}

/// A word of a query goes up to the next space, sign or quote; a phrase goes up to the next quote.
pub proof fn query_words_end_at_a_break(s: Seq<char>, i: int)
    requires
        0 <= i <= s.len(),
    ensures
        ({
            let j = query_word_end(s, i);
            &&& i <= j <= s.len()
            &&& forall|k: int| i <= k < j ==> !ends_word(#[trigger] s[k])
            &&& j < s.len() ==> ends_word(s[j])
        }),
        closing_quote(s, i) is Some ==> ({
            let j = closing_quote(s, i)->0;
            &&& i <= j < s.len()
            &&& s[j] == '"'
            &&& forall|k: int| i <= k < j ==> #[trigger] s[k] != '"'
        }),
        closing_quote(s, i) is None ==> forall|k: int| i <= k < s.len() ==> #[trigger] s[k] != '"',
    decreases s.len() - i,
{
    if i < s.len() {
        query_words_end_at_a_break(s, i + 1);
    }
}

proof fn lemma_part_end(s: Seq<char>, i: int)
    requires
        0 <= i <= s.len(),
    ensures
        i <= part_end(s, i) <= s.len(),
        forall|k: int| i <= k < part_end(s, i) ==> !is_space(#[trigger] s[k]),
        part_end(s, i) < s.len() ==> is_space(s[part_end(s, i)]),
    decreases s.len() - i,
{
    if i < s.len() && !is_space(s[i]) {
        lemma_part_end(s, i + 1);
    }
}

/// The characters of a phrase that are no white space.
pub open spec fn inked(s: Seq<char>, i: int) -> Seq<char>
    decreases s.len() - i,
{
    if i < 0 || i >= s.len() {
        Seq::empty()
    } else if is_space(s[i]) {
        inked(s, i + 1)
    } else {
        seq![s[i]] + inked(s, i + 1)
    }
}

proof fn lemma_inked(s: Seq<char>, i: int, j: int)
    requires
        0 <= i <= j <= s.len(),
        forall|k: int| i <= k < j ==> !is_space(#[trigger] s[k]),
    ensures
        inked(s, i) == s.subrange(i, j) + inked(s, j),
    decreases j - i,
{
    if i < j {
        lemma_inked(s, i + 1, j);
        assert(s.subrange(i, j) =~= seq![s[i]] + s.subrange(i + 1, j));
        assert(inked(s, i) =~= s.subrange(i, j) + inked(s, j));
    } else {
        assert(s.subrange(i, j) =~= Seq::<char>::empty());
        assert(inked(s, i) =~= s.subrange(i, j) + inked(s, j));
    }
}

/// The words of a phrase are its parts between white space: none is empty or holds white space,
/// and together, in their order, they hold all the rest of the phrase.
pub proof fn phrases_are_split_at_white_space(s: Seq<char>, i: int)
    requires
        0 <= i <= s.len(),
    ensures
        forall|w: int| 0 <= w < words_from(s, i).len() ==> (#[trigger] words_from(s, i)[w]).len() > 0,
        forall|w: int, k: int| 0 <= w < words_from(s, i).len() && 0 <= k < words_from(s, i)[w].len() ==> !is_space(#[trigger] words_from(s, i)[w][k]),
        words_from(s, i).flatten() == inked(s, i),
    decreases s.len() - i,
{
    let all = words_from(s, i);
    if i >= s.len() {
        assert(all =~= Seq::<Seq<char>>::empty());
        assert(all.flatten() =~= Seq::<char>::empty());
    } else if is_space(s[i]) {
        phrases_are_split_at_white_space(s, i + 1);
    } else {
        let j = part_end(s, i + 1);
        lemma_part_end(s, i + 1);
        phrases_are_split_at_white_space(s, j);
        let word = s.subrange(i, j);
        let rest = words_from(s, j);
        assert(all == seq![word] + rest);
        lemma_inked(s, i, j);
        assert(all.first() == word);
        assert(all.drop_first() =~= rest);
        all.lemma_flatten_and_flatten_alt_are_equivalent();
        assert(all.flatten() == word + rest.flatten());
        assert forall|w: int| 0 <= w < all.len() implies (#[trigger] all[w]).len() > 0 by {
            if w > 0 {
                assert(all[w] == rest[w - 1]);
            }
        }
        assert forall|w: int, k: int| 0 <= w < all.len() && 0 <= k < all[w].len() implies !is_space(#[trigger] all[w][k]) by {
            if w > 0 {
                assert(all[w] == rest[w - 1]);
                assert(!is_space(rest[w - 1][k]));
            } else {
                assert(all[w][k] == s[i + k]);
            }
        }
    }
}

// --- tokens ---

/// A word from `i` to `j`: word characters, with none before or behind.
pub open spec fn whole_word(ascii: bool, s: Seq<char>, i: int, j: int) -> bool {
    &&& 0 <= i < j <= s.len()
    &&& forall|k: int| i <= k < j ==> word_char(ascii, #[trigger] s[k])
    &&& i > 0 ==> !word_char(ascii, s[i - 1])
    &&& j < s.len() ==> !word_char(ascii, s[j])
}

/// A word as it is indexed.
pub open spec fn indexed_form(ascii: bool, fold: bool, w: Seq<char>) -> Seq<char> {
    if ascii {
        ascii_lower_all(w)
    } else {
        unicode_normal(fold, w)
    }
}

proof fn lemma_run(ascii: bool, s: Seq<char>, i: int)
    requires
        0 <= i <= s.len(),
    ensures
        forall|k: int| i <= k < word_end(ascii, s, i) ==> word_char(ascii, #[trigger] s[k]),
        word_end(ascii, s, i) < s.len() ==> !word_char(ascii, s[word_end(ascii, s, i)]),
    decreases s.len() - i,
{
    lemma_word_end(ascii, s, i);
    if i < s.len() && word_char(ascii, s[i]) {
        lemma_run(ascii, s, i + 1);
    }
}

/// `at` are the words of a text from `from` on, in their order.
pub open spec fn all_words(ascii: bool, s: Seq<char>, from: int, at: Seq<(int, int)>) -> bool {
    &&& forall|t: int| 0 <= t < at.len() ==> whole_word(ascii, s, (#[trigger] at[t]).0, at[t].1) && from <= at[t].0
    &&& forall|t: int, u: int| 0 <= t < u < at.len() ==> (#[trigger] at[t]).1 <= (#[trigger] at[u]).0
    &&& forall|k: int| from <= k < s.len() && word_char(ascii, #[trigger] s[k]) ==> exists|t: int| 0 <= t < at.len() && (#[trigger] at[t]).0 <= k < at[t].1
}

proof fn lemma_words(ascii: bool, fold: bool, s: Seq<char>, from: int, k: int) -> (at: Seq<(int, int)>)
    requires
        0 <= from <= s.len(),
        from > 0 ==> !word_char(ascii, s[from - 1]) || from == s.len() || !word_char(ascii, s[from]),
        forall|w: Seq<char>| w.len() > 0 ==> (#[trigger] indexed_form(ascii, fold, w)).len() > 0,
        0 <= k,
        k + s.len() - from < 0x1_0000_0000,
    ensures
        all_words(ascii, s, from, at),
        tokens_from(ascii, fold, None, s, from, k).len() == at.len(),
        at.len() <= s.len() - from,
        forall|t: int|
            0 <= t < at.len() ==> {
                let tok = #[trigger] tokens_from(ascii, fold, None, s, from, k)[t];
                &&& tok.text == indexed_form(ascii, fold, s.subrange(at[t].0, at[t].1))
                &&& tok.position == k + t
                &&& tok.byte_start == text_width(s.take(at[t].0))
                &&& tok.byte_end == text_width(s.take(at[t].1))
            },
    decreases s.len() - from,
{
    if from == s.len() {
        Seq::empty()
    } else if !word_char(ascii, s[from]) {
        lemma_words(ascii, fold, s, from + 1, k)
    } else {
        let j = word_end(ascii, s, from + 1);
        lemma_word_end(ascii, s, from + 1);
        lemma_run(ascii, s, from + 1);
        let word = s.subrange(from, j);
        assert(indexed_form(ascii, fold, word).len() > 0);
        let rest = lemma_words(ascii, fold, s, j, k + 1);
        let at = seq![(from, j)] + rest;
        let toks = tokens_from(ascii, fold, None, s, from, k);
        let tail = tokens_from(ascii, fold, None, s, j, k + 1);
        let head = word_token(ascii, fold, None, s, from, j, k);
        assert(toks == head + tail);
        assert(head.len() == 1);
        assert(whole_word(ascii, s, from, j));
        assert forall|t: int| 0 <= t < at.len() implies whole_word(ascii, s, (#[trigger] at[t]).0, at[t].1) && from <= at[t].0 by {
            if t > 0 {
                assert(at[t] == rest[t - 1]);
            }
        }
        assert forall|t: int, u: int| 0 <= t < u < at.len() implies (#[trigger] at[t]).1 <= (#[trigger] at[u]).0 by {
            assert(at[u] == rest[u - 1]);
            if t > 0 {
                assert(at[t] == rest[t - 1]);
            }
        }
        assert forall|m: int| from <= m < s.len() && word_char(ascii, #[trigger] s[m]) implies exists|t: int| 0 <= t < at.len() && (#[trigger] at[t]).0 <= m < at[t].1 by {
            if m < j {
                assert(at[0].0 <= m < at[0].1);
            } else {
                let t = choose|t: int| 0 <= t < rest.len() && (#[trigger] rest[t]).0 <= m < rest[t].1;
                assert(at[t + 1] == rest[t]);
            }
        }
        assert forall|t: int| 0 <= t < at.len() implies {
            let tok = #[trigger] toks[t];
            &&& tok.text == indexed_form(ascii, fold, s.subrange(at[t].0, at[t].1))
            &&& tok.position == k + t
            &&& tok.byte_start == text_width(s.take(at[t].0))
            &&& tok.byte_end == text_width(s.take(at[t].1))
        } by {
            if t > 0 {
                assert(toks[t] == tail[t - 1]);
                assert(at[t] == rest[t - 1]);
            }
        }
        at
    }
}

/// The tokens of a text are its words, all of them, in their order: each in the form in which it is
/// indexed, with its number as its position, and with the place in bytes where it stands.
pub proof fn tokens_are_the_words(ascii: bool, fold: bool, s: Seq<char>) -> (at: Seq<(int, int)>)
    requires
        s.len() < 0x1_0000_0000,
        forall|w: Seq<char>| w.len() > 0 ==> (#[trigger] indexed_form(ascii, fold, w)).len() > 0,
    ensures
        all_words(ascii, s, 0, at),
        tokens_from(ascii, fold, None, s, 0, 0).len() == at.len(),
        forall|t: int|
            0 <= t < at.len() ==> {
                let tok = #[trigger] tokens_from(ascii, fold, None, s, 0, 0)[t];
                &&& tok.text == indexed_form(ascii, fold, s.subrange(at[t].0, at[t].1))
                &&& tok.position == t
                &&& tok.byte_start == text_width(s.take(at[t].0))
                &&& tok.byte_end == text_width(s.take(at[t].1))
            },
{
    let at = lemma_words(ascii, fold, s, 0, 0);
    at
}

/// A word that is longer than the limit is left out, and keeps its number: the words behind it have
/// the positions that they have without a limit.
pub proof fn long_words_keep_their_place(ascii: bool, fold: bool, max: usize, s: Seq<char>, i: int, k: int)
    requires
        0 <= i < s.len(),
        word_char(ascii, s[i]),
        indexed_form(ascii, fold, s.subrange(i, word_end(ascii, s, i + 1))).len() > max,
    ensures
        tokens_from(ascii, fold, Some(max), s, i, k) == tokens_from(ascii, fold, Some(max), s, word_end(ascii, s, i + 1), k + 1),
{
    lemma_word_end(ascii, s, i + 1);
    let j = word_end(ascii, s, i + 1);
    assert(word_token(ascii, fold, Some(max), s, i, j, k) =~= Seq::<TokenV>::empty());
    assert(tokens_from(ascii, fold, Some(max), s, i, k) =~= tokens_from(ascii, fold, Some(max), s, j, k + 1));
}

// --- ranking ---

/// A term occurs once more where a token of that text is added, and as often where another is.
pub proof fn occurrences_count_tokens(toks: Seq<TokenV>, t: TokenV, word: Seq<char>)
    ensures
        occurrences(Seq::empty(), word) == 0,
        occurrences(toks.push(t), word) == occurrences(toks, word) + (if t.text == word {
            1int
        } else {
            0
        }),
{
    let p = |x: TokenV| x.text == word;
    reveal(Seq::filter);
    assert(toks.push(t).drop_last() =~= toks);
    assert(Seq::<TokenV>::empty().filter(p) =~= Seq::<TokenV>::empty());
}

/// A document has the tokens of the texts of its columns, in the order of the columns; a value that
/// is no text has none.
pub proof fn documents_join_their_columns<T: Tokenizer>(tk: &T, columns: Seq<usize>, c: usize, row: Seq<ValueV>, i: int)
    requires
        0 <= i <= columns.len(),
    ensures
        c < row.len() && row[c as int] is Text ==> document(tk, columns.push(c), row, i) == document(tk, columns, row, i) + tk.tokens(row[c as int]->Text_0),
        !(c < row.len() && row[c as int] is Text) ==> document(tk, columns.push(c), row, i) == document(tk, columns, row, i),
    decreases columns.len() - i,
{
    reveal_with_fuel(document, 2);
    if i < columns.len() {
        documents_join_their_columns(tk, columns, c, row, i + 1);
    }
    if c < row.len() && row[c as int] is Text {
        assert(document(tk, columns.push(c), row, i) =~= document(tk, columns, row, i) + tk.tokens(row[c as int]->Text_0));
    } else {
        assert(document(tk, columns.push(c), row, i) =~= document(tk, columns, row, i));
    }
}

// --- excerpts ---

/// The words that are shown are those that a match contains: of both sides of AND and OR, of the
/// first side of NOT alone.
pub proof fn shown_words_are_asked_for(a: QueryV, b: QueryV, w: (Seq<char>, bool), column: Seq<char>)
    ensures
        positive_terms(QueryV::And(Box::new(a), Box::new(b))).contains(w) <==> positive_terms(a).contains(w) || positive_terms(b).contains(w),
        positive_terms(QueryV::Or(Box::new(a), Box::new(b))).contains(w) <==> positive_terms(a).contains(w) || positive_terms(b).contains(w),
        positive_terms(QueryV::Not(Box::new(a), Box::new(b))) == positive_terms(a),
        positive_terms(QueryV::Column { column, query: Box::new(a) }) == positive_terms(a),
        positive_terms(QueryV::Term { text: w.0, prefix: w.1 }) == seq![w],
{
    let (x, y) = (positive_terms(a), positive_terms(b));
    let both = x + y;
    if x.contains(w) {
        let k = choose|k: int| 0 <= k < x.len() && x[k] == w;
        assert(both[k] == w);
    }
    if y.contains(w) {
        let k = choose|k: int| 0 <= k < y.len() && y[k] == w;
        assert(both[x.len() + k] == w);
    }
    if both.contains(w) {
        let k = choose|k: int| 0 <= k < both.len() && both[k] == w;
        if k < x.len() {
            assert(x[k] == w);
        } else {
            assert(y[k - x.len()] == w);
        }
    }
}

/// A marked token stands between the marks, with the text before it as it was; one that is not
/// marked is left in the text.
pub proof fn marked_tokens_stand_between_marks(text: Seq<char>, toks: Seq<TokenV>, i: int, stop: int, targets: Seq<(Seq<char>, bool)>, open_: Seq<char>, close: Seq<char>, last: nat, end: nat)
    requires
        0 <= i < stop <= toks.len(),
    ensures
        marked(toks[i].text, targets) ==> wrapped(text, toks, i, stop, targets, open_, close, last, end) == slice(text, last, toks[i].byte_start) + open_ + slice(text, toks[i].byte_start, toks[i].byte_end) + close + wrapped(text, toks, i + 1, stop, targets, open_, close, toks[i].byte_end, end),
        !marked(toks[i].text, targets) ==> wrapped(text, toks, i, stop, targets, open_, close, last, end) == wrapped(text, toks, i + 1, stop, targets, open_, close, last, end),
        wrapped(text, toks, stop, stop, targets, open_, close, last, end) == slice(text, last, end),
        marked(toks[i].text, seq![(toks[i].text, false)]),
        !marked(toks[i].text, Seq::empty()),
{
    assert(seq![(toks[i].text, false)][0] == (toks[i].text, false));
}

/// A snippet is centred on the first token that is marked, or on the first of all: it holds that
/// token, at most as many tokens as it may, and exactly as many where the text has them.
pub proof fn snippets_hold_the_first_match(toks: Seq<TokenV>, targets: Seq<(Seq<char>, bool)>, max: int)
    requires
        toks.len() > 0,
        max > 0,
    ensures
        ({
            let n = toks.len() as int;
            let c = first_marked(toks, targets, 0);
            let (start, end) = window(c, n, max);
            &&& 0 <= start <= c < end <= n
            &&& end - start <= max
            &&& n >= max ==> end - start == max
            &&& n < max ==> start == 0 && end == n
            &&& forall|i: int| 0 <= i < c ==> !marked((#[trigger] toks[i]).text, targets)
            &&& (exists|i: int| 0 <= i < n && marked((#[trigger] toks[i]).text, targets)) ==> marked(toks[c].text, targets)
        }),
{
    lemma_first_marked(toks, targets, 0);
}

proof fn lemma_first_marked(toks: Seq<TokenV>, targets: Seq<(Seq<char>, bool)>, from: int)
    requires
        0 <= from <= toks.len(),
        toks.len() > 0,
    ensures
        ({
            let c = first_marked(toks, targets, from);
            &&& 0 <= c < toks.len()
            &&& (exists|i: int| from <= i < toks.len() && marked((#[trigger] toks[i]).text, targets)) ==> {
                &&& from <= c
                &&& marked(toks[c].text, targets)
                &&& forall|i: int| from <= i < c ==> !marked((#[trigger] toks[i]).text, targets)
            }
            &&& !(exists|i: int| from <= i < toks.len() && marked((#[trigger] toks[i]).text, targets)) ==> c == 0
        }),
    decreases toks.len() - from,
{
    if from < toks.len() && !marked(toks[from].text, targets) {
        lemma_first_marked(toks, targets, from + 1);
        if exists|i: int| from <= i < toks.len() && marked((#[trigger] toks[i]).text, targets) {
            let i = choose|i: int| from <= i < toks.len() && marked((#[trigger] toks[i]).text, targets);
            assert(i != from);
            assert(from + 1 <= i < toks.len() && marked(toks[i].text, targets));
        }
    }
}

} // verus!
