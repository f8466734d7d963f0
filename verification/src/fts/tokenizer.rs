//! Tokenizers: deterministic splitting of text into searchable terms.
use vstd::prelude::*;

use crate::exec::strings::to_lower;
#[allow(unused_imports)]
use crate::exec::strings::text_lower;
use crate::text::{chars_of, lower_char, string_of, string_range, utf8_width};
#[allow(unused_imports)]
use crate::text::{ascii_lower_all, boundary, lemma_take_width, lemma_text_bytes, text_width};

verus! {

/// A term of a text.
#[derive(Clone, Debug, PartialEq, Eq)]
pub struct Token {
    /// The term as it is indexed.
    pub text: String,
    /// Ordinal position in the text. A term that a filter drops keeps its position,
    /// so that phrases do not become adjacent by accident.
    pub position: u32,
    /// Byte offset in the original text at which the term starts.
    pub byte_start: usize,
    /// Byte offset in the original text at which the term ends.
    pub byte_end: usize,
}

#[verifier::ext_equal]
pub ghost struct TokenV {
    pub text: Seq<char>,
    pub position: u32,
    pub byte_start: nat,
    pub byte_end: nat,
}

impl View for Token {
    type V = TokenV;

    open spec fn view(&self) -> TokenV {
        TokenV {
            text: self.text@,
            position: self.position,
            byte_start: self.byte_start as nat,
            byte_end: self.byte_end as nat,
        }
    }
}

pub open spec fn tokens_v(s: Seq<Token>) -> Seq<TokenV> {
    Seq::new(s.len(), |i: int| s[i]@)
}

/// The tokens lie in `text` one after the other, each of them not empty.
pub open spec fn placed(toks: Seq<TokenV>, text: Seq<char>) -> bool {
    &&& forall|i: int|
        0 <= i < toks.len() ==> {
            let t = #[trigger] toks[i];
            t.byte_start < t.byte_end && boundary(text, t.byte_start) && boundary(text, t.byte_end)
        }
    &&& forall|i: int, j: int|
        0 <= i < j < toks.len() ==> (#[trigger] toks[i]).byte_end <= (#[trigger] toks[j]).byte_start
}

/// Splits a text into tokens. The same tokenizer serves for indexing and for
/// searching: it says which words count as the same.
pub trait Tokenizer: Sized {
    /// The tokens of a text.
    spec fn tokens(&self, text: Seq<char>) -> Seq<TokenV>;

    /// The name under which the tokenizer is recorded.
    spec fn label(&self) -> Seq<char>;

    /// Appends the tokens of `text` to `out`.
    fn tokenize(&self, text: &str, out: &mut Vec<Token>)
        ensures
            tokens_v(final(out)@) == tokens_v(old(out)@) + self.tokens(text@),
            placed(self.tokens(text@), text@),
    ;

    fn name(&self) -> (r: &str)
        ensures
            r@ == self.label(),
    ;
}

// --- characters ---

/// What `char::is_alphanumeric` gives.
pub uninterp spec fn alphanumeric(c: char) -> bool;

/// `char::is_alphanumeric`: a function of the character alone, by the Unicode
/// tables of std.
#[verifier::external_body]
fn is_alphanumeric(c: char) -> (r: bool)
    ensures
        r == alphanumeric(c),
{
    c.is_alphanumeric()
}

pub open spec fn ascii_alphanumeric(c: char) -> bool {
    '0' <= c <= '9' || 'A' <= c <= 'Z' || 'a' <= c <= 'z'
}

/// The ASCII form of a lower-case Latin letter with a diacritic; any other
/// character is left as it is.
pub open spec fn folded(c: char) -> Seq<char> {
    match c {
        'à' | 'á' | 'â' | 'ã' | 'ä' | 'å' | 'ā' | 'ă' | 'ą' => seq!['a'],
        'æ' => seq!['a', 'e'],
        'ç' | 'ć' | 'ĉ' | 'ċ' | 'č' => seq!['c'],
        'ð' | 'ď' | 'đ' => seq!['d'],
        'è' | 'é' | 'ê' | 'ë' | 'ē' | 'ĕ' | 'ė' | 'ę' | 'ě' => seq!['e'],
        'ĝ' | 'ğ' | 'ġ' | 'ģ' => seq!['g'],
        'ĥ' | 'ħ' => seq!['h'],
        'ì' | 'í' | 'î' | 'ï' | 'ĩ' | 'ī' | 'ĭ' | 'į' | 'ı' => seq!['i'],
        'ĵ' => seq!['j'],
        'ķ' => seq!['k'],
        'ĺ' | 'ļ' | 'ľ' | 'ŀ' | 'ł' => seq!['l'],
        'ñ' | 'ń' | 'ņ' | 'ň' | 'ŋ' => seq!['n'],
        'ò' | 'ó' | 'ô' | 'õ' | 'ö' | 'ø' | 'ō' | 'ŏ' | 'ő' => seq!['o'],
        'œ' => seq!['o', 'e'],
        'ŕ' | 'ŗ' | 'ř' => seq!['r'],
        'ś' | 'ŝ' | 'ş' | 'š' => seq!['s'],
        'ß' => seq!['s', 's'],
        'ţ' | 'ť' | 'ŧ' => seq!['t'],
        'þ' => seq!['t', 'h'],
        'ù' | 'ú' | 'û' | 'ü' | 'ũ' | 'ū' | 'ŭ' | 'ů' | 'ű' | 'ų' => seq!['u'],
        'ŵ' => seq!['w'],
        'ý' | 'ÿ' | 'ŷ' => seq!['y'],
        'ź' | 'ż' | 'ž' => seq!['z'],
        _ => seq![c],
    }
}

fn fold_lower_into(c: char, out: &mut Vec<char>)
    ensures
        final(out)@ == old(out)@ + folded(c),
{
    let ghost before = out@;
    match c {
        'à' | 'á' | 'â' | 'ã' | 'ä' | 'å' | 'ā' | 'ă' | 'ą' => out.push('a'),
        'æ' => {
            out.push('a');
            out.push('e');
        },
        'ç' | 'ć' | 'ĉ' | 'ċ' | 'č' => out.push('c'),
        'ð' | 'ď' | 'đ' => out.push('d'),
        'è' | 'é' | 'ê' | 'ë' | 'ē' | 'ĕ' | 'ė' | 'ę' | 'ě' => out.push('e'),
        'ĝ' | 'ğ' | 'ġ' | 'ģ' => out.push('g'),
        'ĥ' | 'ħ' => out.push('h'),
        'ì' | 'í' | 'î' | 'ï' | 'ĩ' | 'ī' | 'ĭ' | 'į' | 'ı' => out.push('i'),
        'ĵ' => out.push('j'),
        'ķ' => out.push('k'),
        'ĺ' | 'ļ' | 'ľ' | 'ŀ' | 'ł' => out.push('l'),
        'ñ' | 'ń' | 'ņ' | 'ň' | 'ŋ' => out.push('n'),
        'ò' | 'ó' | 'ô' | 'õ' | 'ö' | 'ø' | 'ō' | 'ŏ' | 'ő' => out.push('o'),
        'œ' => {
            out.push('o');
            out.push('e');
        },
        'ŕ' | 'ŗ' | 'ř' => out.push('r'),
        'ś' | 'ŝ' | 'ş' | 'š' => out.push('s'),
        'ß' => {
            out.push('s');
            out.push('s');
        },
        'ţ' | 'ť' | 'ŧ' => out.push('t'),
        'þ' => {
            out.push('t');
            out.push('h');
        },
        'ù' | 'ú' | 'û' | 'ü' | 'ũ' | 'ū' | 'ŭ' | 'ů' | 'ű' | 'ų' => out.push('u'),
        'ŵ' => out.push('w'),
        'ý' | 'ÿ' | 'ŷ' => out.push('y'),
        'ź' | 'ż' | 'ž' => out.push('z'),
        other => out.push(other),
    }
    assert(out@ =~= before + folded(c));
}

// --- scanning ---

/// What a tokenizer counts as a word and how it writes it.
#[derive(Clone, Copy)]
struct Style {
    ascii: bool,
    fold: bool,
    max: Option<usize>,
}

/// The characters that make up words.
pub open spec fn word_char(ascii: bool, c: char) -> bool {
    if ascii {
        ascii_alphanumeric(c)
    } else {
        alphanumeric(c)
    }
}

pub open spec fn folded_all(s: Seq<char>) -> Seq<char>
    decreases s.len(),
{
    if s.len() == 0 {
        Seq::empty()
    } else {
        folded_all(s.drop_last()) + folded(s.last())
    }
}

/// The lower-case form of a word, with or without diacritics.
pub open spec fn unicode_normal(fold: bool, s: Seq<char>) -> Seq<char> {
    if fold {
        folded_all(text_lower(s))
    } else {
        text_lower(s)
    }
}

/// The end of the word that goes on at `i`.
pub open spec fn word_end(ascii: bool, s: Seq<char>, i: int) -> int
    decreases s.len() - i,
{
    if 0 <= i < s.len() && word_char(ascii, s[i]) {
        word_end(ascii, s, i + 1)
    } else {
        i
    }
}

pub proof fn lemma_word_end(ascii: bool, s: Seq<char>, i: int)
    requires
        0 <= i <= s.len(),
    ensures
        i <= word_end(ascii, s, i) <= s.len(),
    decreases s.len() - i,
{
    if i < s.len() && word_char(ascii, s[i]) {
        lemma_word_end(ascii, s, i + 1);
    }
}

/// The token of the word from `i` to `j`, if it is kept.
pub open spec fn word_token(
    ascii: bool,
    fold: bool,
    max: Option<usize>,
    s: Seq<char>,
    i: int,
    j: int,
    k: int,
) -> Seq<TokenV> {
    let norm = if ascii {
        ascii_lower_all(s.subrange(i, j))
    } else {
        unicode_normal(fold, s.subrange(i, j))
    };
    if norm.len() == 0 || (max is Some && norm.len() > max->0) {
        Seq::empty()
    } else {
        seq![
            TokenV {
                text: norm,
                position: (k % 0x1_0000_0000) as u32,
                byte_start: text_width(s.take(i)),
                byte_end: text_width(s.take(j)),
            },
        ]
    }
}

/// The tokens of `s` from position `i` on, the next word being number `k`.
pub open spec fn tokens_from(
    ascii: bool,
    fold: bool,
    max: Option<usize>,
    s: Seq<char>,
    i: int,
    k: int,
) -> Seq<TokenV>
    decreases s.len() - i,
{
    if i < 0 || i >= s.len() {
        Seq::empty()
    } else if !word_char(ascii, s[i]) {
        tokens_from(ascii, fold, max, s, i + 1, k)
    } else {
        let j = word_end(ascii, s, i + 1);
        if i < j <= s.len() {
            word_token(ascii, fold, max, s, i, j, k) + tokens_from(ascii, fold, max, s, j, k + 1)
        } else {
            Seq::empty()
        }
    }
}

proof fn lemma_placed(ascii: bool, fold: bool, max: Option<usize>, s: Seq<char>, i: int, k: int)
    requires
        0 <= i <= s.len(),
    ensures
        placed(tokens_from(ascii, fold, max, s, i, k), s),
        forall|x: int|
            0 <= x < tokens_from(ascii, fold, max, s, i, k).len() ==> text_width(s.take(i)) <= (
            #[trigger] tokens_from(ascii, fold, max, s, i, k)[x]).byte_start,
    decreases s.len() - i,
{
    if i < s.len() {
        if !word_char(ascii, s[i]) {
            lemma_placed(ascii, fold, max, s, i + 1, k);
            lemma_take_width(s, i, i + 1);
        } else {
            lemma_word_end(ascii, s, i + 1);
            let j = word_end(ascii, s, i + 1);
            lemma_placed(ascii, fold, max, s, j, k + 1);
            lemma_take_width(s, i, j);
            let t = word_token(ascii, fold, max, s, i, j, k);
            let rest = tokens_from(ascii, fold, max, s, j, k + 1);
            let all = t + rest;
            assert(boundary(s, text_width(s.take(i))));
            assert(boundary(s, text_width(s.take(j))));
            assert forall|x: int| 0 <= x < all.len() implies {
                let u = #[trigger] all[x];
                u.byte_start < u.byte_end && boundary(s, u.byte_start) && boundary(s, u.byte_end)
                    && text_width(s.take(i)) <= u.byte_start
            } by {
                if x >= t.len() {
                    assert(all[x] == rest[x - t.len()]);
                }
            }
            assert forall|x: int, y: int| 0 <= x < y < all.len() implies (
            #[trigger] all[x]).byte_end <= (#[trigger] all[y]).byte_start by {
                assert(all[y] == rest[y - t.len()]);
                if x >= t.len() {
                    assert(all[x] == rest[x - t.len()]);
                }
            }
        }
    }
}

fn word_here(ascii: bool, c: char) -> (r: bool)
    ensures
        r == word_char(ascii, c),
{
    if ascii {
        ('0' <= c && c <= '9') || ('A' <= c && c <= 'Z') || ('a' <= c && c <= 'z')
    } else {
        is_alphanumeric(c)
    }
}

fn normalize(fold: bool, s: &[char], lo: usize, hi: usize) -> (r: Vec<char>)
    requires
        lo <= hi <= s@.len(),
    ensures
        r@ == unicode_normal(fold, s@.subrange(lo as int, hi as int)),
{
    let word = string_range(s, lo, hi);
    let lc = chars_of(to_lower(word.as_str()).as_str());
    if !fold {
        return lc;
    }
    let mut out: Vec<char> = Vec::new();
    let n: usize = lc.len();
    assert(out@ =~= folded_all(lc@.take(0)));
    for i in 0..n
        invariant
            n == lc@.len(),
            out@ == folded_all(lc@.take(i as int)),
    {
        fold_lower_into(lc[i], &mut out);
        assert(lc@.take(i + 1).drop_last() =~= lc@.take(i as int));
    }
    assert(lc@.take(n as int) =~= lc@);
    out
}

fn lower_run(s: &[char], lo: usize, hi: usize) -> (r: Vec<char>)
    requires
        lo <= hi <= s@.len(),
    ensures
        r@ == ascii_lower_all(s@.subrange(lo as int, hi as int)),
{
    let mut out: Vec<char> = Vec::new();
    for i in lo..hi
        invariant
            lo <= hi <= s@.len(),
            out@ == ascii_lower_all(s@.subrange(lo as int, i as int)),
    {
        let ghost before = out@;
        out.push(lower_char(s[i]));
        assert(out@ =~= ascii_lower_all(s@.subrange(lo as int, i + 1)));
    }
    out
}

fn scan(st: Style, text: &str, out: &mut Vec<Token>)
    ensures
        tokens_v(final(out)@) == tokens_v(old(out)@) + tokens_from(
            st.ascii,
            st.fold,
            st.max,
            text@,
            0,
            0,
        ),
        placed(tokens_from(st.ascii, st.fold, st.max, text@, 0, 0), text@),
{
    let s = chars_of(text);
    let bytes = text.as_bytes();
    let total: usize = bytes.len();
    proof {
        lemma_placed(st.ascii, st.fold, st.max, text@, 0, 0);
        lemma_text_bytes(text@);
    }
    assert(total == text_width(s@));
    let ghost all = tokens_v(out@) + tokens_from(st.ascii, st.fold, st.max, s@, 0, 0);
    let mut i: usize = 0;
    let mut at: usize = 0;
    let mut k: u32 = 0;
    let ghost mut kk: int = 0;
    assert(s@.take(0) =~= Seq::empty());
    while i < s.len()
        invariant
            i <= s@.len(),
            s@ == text@,
            at == text_width(s@.take(i as int)),
            total == text_width(s@),
            0 <= kk,
            k == kk % 0x1_0000_0000,
            tokens_v(out@) + tokens_from(st.ascii, st.fold, st.max, s@, i as int, kk) == all,
        decreases s@.len() - i,
    {
        proof {
            lemma_take_width(s@, i as int, i + 1);
            lemma_take_width(s@, i + 1, s@.len() as int);
            assert(s@.take(s@.len() as int) =~= s@);
            assert(s@.take(i + 1).drop_last() =~= s@.take(i as int));
        }
        if !word_here(st.ascii, s[i]) {
            at = at + utf8_width(s[i]);
            i = i + 1;
        } else {
            let start: usize = i;
            let byte_start: usize = at;
            at = at + utf8_width(s[i]);
            i = i + 1;
            let ghost j = word_end(st.ascii, s@, i as int);
            while i < s.len() && word_here(st.ascii, s[i])
                invariant
                    start < i <= s@.len(),
                    s@ == text@,
                    at == text_width(s@.take(i as int)),
                    total == text_width(s@),
                    j == word_end(st.ascii, s@, i as int),
                decreases s@.len() - i,
            {
                proof {
                    lemma_take_width(s@, i as int, i + 1);
                    lemma_take_width(s@, i + 1, s@.len() as int);
                    assert(s@.take(s@.len() as int) =~= s@);
                    assert(s@.take(i + 1).drop_last() =~= s@.take(i as int));
                }
                at = at + utf8_width(s[i]);
                i = i + 1;
            }
            let norm = if st.ascii {
                lower_run(s.as_slice(), start, i)
            } else {
                normalize(st.fold, s.as_slice(), start, i)
            };
            let ghost before = tokens_v(out@);
            let ghost word = word_token(
                st.ascii,
                st.fold,
                st.max,
                s@,
                start as int,
                i as int,
                kk,
            );
            let fits: bool = match st.max {
                Some(m) => norm.len() <= m,
                None => true,
            };
            if norm.len() > 0 && fits {
                out.push(
                    Token {
                        text: string_of(norm),
                        position: k,
                        byte_start: byte_start,
                        byte_end: at,
                    },
                );
            }
            assert(tokens_v(out@) =~= before + word);
            proof {
                let rest = tokens_from(st.ascii, st.fold, st.max, s@, i as int, kk + 1);
                assert(before + (word + rest) =~= tokens_v(out@) + rest);
                kk = kk + 1;
            }
            k = k.wrapping_add(1);
        }
    }
    assert(tokens_v(out@) + Seq::<TokenV>::empty() =~= tokens_v(out@));
}

// --- the tokenizers ---

/// The default tokenizer: a word is a run of alphanumeric characters, written in
/// lower case and, unless told otherwise, without Latin diacritics.
#[derive(Clone, Debug)]
pub struct UnicodeTokenizer {
    pub fold_diacritics: bool,
    /// Words whose written form is longer than this are dropped.
    pub max_token_len: Option<usize>,
}

impl Default for UnicodeTokenizer {
    fn default() -> (r: Self)
        ensures
            r.fold_diacritics,
            r.max_token_len is None,
    {
        UnicodeTokenizer { fold_diacritics: true, max_token_len: None }
    }
}

impl UnicodeTokenizer {
    pub fn new() -> (r: Self)
        ensures
            r.fold_diacritics,
            r.max_token_len is None,
    {
        UnicodeTokenizer::default()
    }
}

impl Tokenizer for UnicodeTokenizer {
    open spec fn tokens(&self, text: Seq<char>) -> Seq<TokenV> {
        tokens_from(false, self.fold_diacritics, self.max_token_len, text, 0, 0)
    }

    open spec fn label(&self) -> Seq<char> {
        "unicode"@
    }

    fn tokenize(&self, text: &str, out: &mut Vec<Token>) {
        scan(
            Style { ascii: false, fold: self.fold_diacritics, max: self.max_token_len },
            text,
            out,
        );
    }

    fn name(&self) -> (r: &str) {
        "unicode"
    }
}

/// A word is a run of ASCII letters and digits, written in lower case.
#[derive(Clone, Debug, Default)]
pub struct AsciiTokenizer;

impl Tokenizer for AsciiTokenizer {
    open spec fn tokens(&self, text: Seq<char>) -> Seq<TokenV> {
        tokens_from(true, false, None, text, 0, 0)
    }

    open spec fn label(&self) -> Seq<char> {
        "ascii"@
    }

    fn tokenize(&self, text: &str, out: &mut Vec<Token>) {
        scan(Style { ascii: true, fold: false, max: None }, text, out);
    }

    fn name(&self) -> (r: &str) {
        "ascii"
    }
}

// --- laws ---

/// The tokens of a text lie in it one after the other.
pub proof fn tokens_are_placed(fold: bool, max: Option<usize>, ascii: bool, text: Seq<char>)
    ensures
        placed(tokens_from(ascii, fold, max, text, 0, 0), text),
{
    lemma_placed(ascii, fold, max, text, 0, 0);
}

} // verus!
