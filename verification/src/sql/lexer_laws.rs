//! What the lexer is for: what a text between quotes stands for, where words and comments end, and
//! which signs are taken together.
#[allow(unused_imports)]
use vstd::prelude::*;

#[allow(unused_imports)]
use crate::error::ErrorV;
#[allow(unused_imports)]
use crate::reals::RealTableV;
#[allow(unused_imports)]
use crate::sql::lexer::{
    byte_at, char_at, in_word, keyword_of, lexed_from, lexeme, line_end, quoted_from, starts_word, word_end, Kw, SpannedV, TokV,
};
#[allow(unused_imports)]
use crate::text::ascii_upper_all;

verus! {

/// A text with every quote in it written twice.
pub open spec fn doubled(t: Seq<char>, q: char) -> Seq<char>
    decreases t.len(),
{
    if t.len() == 0 {
        Seq::empty()
    } else if t[0] == q {
        seq![q, q] + doubled(t.drop_first(), q)
    } else {
        seq![t[0]] + doubled(t.drop_first(), q)
    }
}

/// A text whose quotes are written twice, up to a single quote, is read back as it is.
pub proof fn quoted_texts_are_read_back(s: Seq<char>, i: int, t: Seq<char>, q: char)
    requires
        0 <= i,
        i + doubled(t, q).len() < s.len(),
        s.subrange(i, i + doubled(t, q).len()) == doubled(t, q),
        s[i + doubled(t, q).len()] == q,
        char_at(s, i + doubled(t, q).len() + 1) != Some(q),
    ensures
        quoted_from(s, i, q) == Some((t, i + doubled(t, q).len() + 1)),
    decreases t.len(),
{
    let d = doubled(t, q);
    if t.len() == 0 {
        assert(t =~= Seq::<char>::empty());
    } else {
        let rest = t.drop_first();
        let e = doubled(rest, q);
        let step = if t[0] == q {
            2int
        } else {
            1
        };
        assert(d.len() == step + e.len());
        assert(s[i] == s.subrange(i, i + d.len())[0]);
        assert(d[0] == t[0]);
        if t[0] == q {
            assert(s[i + 1] == s.subrange(i, i + d.len())[1]);
            assert(d[1] == q);
        }
        assert(s.subrange(i + step, i + step + e.len()) =~= s.subrange(i, i + d.len()).skip(step));
        assert(d.skip(step) =~= e);
        quoted_texts_are_read_back(s, i + step, rest, q);
        assert(seq![t[0]] + rest =~= t);
    }
}

/// Between single quotes stands a text, between double quotes a name that is never a reserved word.
pub proof fn quotes_make_texts_and_names(t: Seq<char>, reals: RealTableV)
    ensures
        lexeme(seq!['\''] + doubled(t, '\'') + seq!['\''], 0, reals) == Ok::<(Option<TokV>, int), ErrorV>((Some(TokV::Str(t)), 2 + doubled(t, '\'').len() as int)),
        t.len() > 0 ==> lexeme(seq!['"'] + doubled(t, '"') + seq!['"'], 0, reals) == Ok::<(Option<TokV>, int), ErrorV>((Some(TokV::Ident(t)), 2 + doubled(t, '"').len() as int)),
{
    let d = doubled(t, '\'');
    let s = seq!['\''] + d + seq!['\''];
    assert(s.subrange(1, 1 + d.len() as int) =~= d);
    quoted_texts_are_read_back(s, 1, t, '\'');
    let e = doubled(t, '"');
    let u = seq!['"'] + e + seq!['"'];
    assert(u.subrange(1, 1 + e.len() as int) =~= e);
    quoted_texts_are_read_back(u, 1, t, '"');
}

/// A word goes on as long as its characters do, a name of a parameter likewise, and a comment up
/// to the end of the line.
pub proof fn words_and_comments_end(s: Seq<char>, i: int)
    requires
        0 <= i <= s.len(),
    ensures
        ({
            let j = word_end(s, i);
            i <= j <= s.len() && (forall|k: int| i <= k < j ==> in_word(#[trigger] s[k])) && (j < s.len() ==> !in_word(s[j]))
        }),
        ({
            let j = line_end(s, i);
            i <= j <= s.len() && (forall|k: int| i <= k < j ==> #[trigger] s[k] != '\n') && (j < s.len() ==> s[j] == '\n')
        }),
    decreases s.len() - i,
{
    if i < s.len() {
        words_and_comments_end(s, i + 1);
    }
}

/// A word is a reserved word whatever the case of its letters, and otherwise a name as it is
/// written.
pub proof fn words_are_reserved_in_any_case(s: Seq<char>, i: int, reals: RealTableV, a: Seq<char>, b: Seq<char>)
    requires
        0 <= i < s.len(),
        starts_word(s[i]),
        !((s[i] == 'x' || s[i] == 'X') && char_at(s, i + 1) == Some('\'')),
    ensures
        ({
            let word = s.subrange(i, word_end(s, i));
            &&& keyword_of(word) is None ==> lexeme(s, i, reals) == Ok::<(Option<TokV>, int), ErrorV>((Some(TokV::Ident(word)), word_end(s, i)))
            &&& keyword_of(word) is Some ==> lexeme(s, i, reals) == Ok::<(Option<TokV>, int), ErrorV>((Some(TokV::Kw(keyword_of(word)->0)), word_end(s, i)))
        }),
        ascii_upper_all(a) == ascii_upper_all(b) ==> keyword_of(a) == keyword_of(b),
{
}

/// Two signs that make one operator are taken together; blanks and comments stand for nothing.
pub proof fn signs_are_taken_together(s: Seq<char>, i: int, reals: RealTableV)
    requires
        0 <= i,
        i + 1 < s.len(),
    ensures
        s[i] == '<' && s[i + 1] == '=' ==> lexeme(s, i, reals) == Ok::<(Option<TokV>, int), ErrorV>((Some(TokV::Le), i + 2)),
        s[i] == '>' && s[i + 1] == '=' ==> lexeme(s, i, reals) == Ok::<(Option<TokV>, int), ErrorV>((Some(TokV::Ge), i + 2)),
        s[i] == '<' && s[i + 1] == '>' ==> lexeme(s, i, reals) == Ok::<(Option<TokV>, int), ErrorV>((Some(TokV::Ne), i + 2)),
        s[i] == '!' && s[i + 1] == '=' ==> lexeme(s, i, reals) == Ok::<(Option<TokV>, int), ErrorV>((Some(TokV::Ne), i + 2)),
        s[i] == '|' && s[i + 1] == '|' ==> lexeme(s, i, reals) == Ok::<(Option<TokV>, int), ErrorV>((Some(TokV::Concat), i + 2)),
        s[i] == '-' && s[i + 1] == '>' && char_at(s, i + 2) != Some('>') ==> lexeme(s, i, reals) == Ok::<(Option<TokV>, int), ErrorV>((Some(TokV::Arrow), i + 2)),
        s[i] == '-' && s[i + 1] == '>' && char_at(s, i + 2) == Some('>') ==> lexeme(s, i, reals) == Ok::<(Option<TokV>, int), ErrorV>((Some(TokV::ArrowArrow), i + 3)),
        s[i] == '-' && s[i + 1] == '-' ==> lexeme(s, i, reals) == Ok::<(Option<TokV>, int), ErrorV>((None, line_end(s, i))),
        s[i] == '<' && s[i + 1] != '=' && s[i + 1] != '>' ==> lexeme(s, i, reals) == Ok::<(Option<TokV>, int), ErrorV>((Some(TokV::Lt), i + 1)),
        s[i] == '>' && s[i + 1] != '=' ==> lexeme(s, i, reals) == Ok::<(Option<TokV>, int), ErrorV>((Some(TokV::Gt), i + 1)),
        s[i] == '=' ==> lexeme(s, i, reals) == Ok::<(Option<TokV>, int), ErrorV>((Some(TokV::Eq), i + 1)),
        s[i] == '+' ==> lexeme(s, i, reals) == Ok::<(Option<TokV>, int), ErrorV>((Some(TokV::Plus), i + 1)),
        s[i] == '-' && s[i + 1] != '-' && s[i + 1] != '>' ==> lexeme(s, i, reals) == Ok::<(Option<TokV>, int), ErrorV>((Some(TokV::Minus), i + 1)),
        s[i] == '*' ==> lexeme(s, i, reals) == Ok::<(Option<TokV>, int), ErrorV>((Some(TokV::Star), i + 1)),
        s[i] == '/' ==> lexeme(s, i, reals) == Ok::<(Option<TokV>, int), ErrorV>((Some(TokV::Slash), i + 1)),
        s[i] == '%' ==> lexeme(s, i, reals) == Ok::<(Option<TokV>, int), ErrorV>((Some(TokV::Percent), i + 1)),
        s[i] == ' ' || s[i] == '\n' || s[i] == '\t' || s[i] == '\r' ==> lexeme(s, i, reals) == Ok::<(Option<TokV>, int), ErrorV>((None, i + 1)),
{
}

/// The tokens of a text come one after the other, each with the place in bytes where it starts.
pub proof fn tokens_follow_each_other(s: Seq<char>, i: int, reals: RealTableV, t: Option<TokV>, j: int, rest: Seq<SpannedV>)
    requires
        0 <= i < j <= s.len(),
        lexeme(s, i, reals) == Ok::<(Option<TokV>, int), ErrorV>((t, j)),
        lexed_from(s, j, reals) == Ok::<Seq<SpannedV>, ErrorV>(rest),
    ensures
        t is Some ==> lexed_from(s, i, reals) == Ok::<Seq<SpannedV>, ErrorV>(seq![SpannedV { tok: t->0, pos: byte_at(s, i) }] + rest),
        t is None ==> lexed_from(s, i, reals) == Ok::<Seq<SpannedV>, ErrorV>(rest),
{
}

} // verus!
