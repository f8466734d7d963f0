//! The query language of `MATCH`.
//!
//! ```text
//! query   := or
//! or      := and ( 'OR' and )*
//! and     := not ( ('AND')? not )*
//! not     := primary ( 'NOT' primary )*
//! primary := '(' or ')'
//!          | 'NEAR' '(' word+ (',' number)? ')'
//!          | word ':' primary
//!          | '"' word* '"'
//!          | word '*'?
//! ```
//!
//! The operators are words in upper case; in lower case they are terms. Terms are
//! kept as they are written: they are normalised when the query is evaluated.
use vstd::prelude::*;

use crate::catalog::{clone_strings, strings_v};
use crate::error::{sql_err, Error, ErrorV};
#[allow(unused_imports)]
use crate::error::{gives, sql_error};
use crate::text::{cat, chars_of, parse_usize, space, str_eq, string_range};
#[allow(unused_imports)]
use crate::text::{is_space, usize_of};

verus! {

/// A `MATCH` query.
#[derive(Debug, PartialEq, Eq)]
pub enum Query {
    /// A word; with `prefix`, any word that starts with it.
    Term { text: String, prefix: bool },
    /// Words that stand next to each other in this order.
    Phrase(Vec<String>),
    /// Words at most `distance` apart.
    Near { terms: Vec<String>, distance: u32 },
    /// A query on one column of the index.
    Column { column: String, query: Box<Query> },
    And(Box<Query>, Box<Query>),
    Or(Box<Query>, Box<Query>),
    /// The first and not the second.
    Not(Box<Query>, Box<Query>),
}

pub ghost enum QueryV {
    Term { text: Seq<char>, prefix: bool },
    Phrase(Seq<Seq<char>>),
    Near { terms: Seq<Seq<char>>, distance: u32 },
    Column { column: Seq<char>, query: Box<QueryV> },
    And(Box<QueryV>, Box<QueryV>),
    Or(Box<QueryV>, Box<QueryV>),
    Not(Box<QueryV>, Box<QueryV>),
}

pub open spec fn query_v(q: Query) -> QueryV
    decreases q,
{
    match q {
        Query::Term { text, prefix } => QueryV::Term { text: text@, prefix },
        Query::Phrase(words) => QueryV::Phrase(strings_v(words@)),
        Query::Near { terms, distance } => QueryV::Near { terms: strings_v(terms@), distance },
        Query::Column { column, query } => QueryV::Column {
            column: column@,
            query: Box::new(query_v(*query)),
        },
        Query::And(a, b) => QueryV::And(Box::new(query_v(*a)), Box::new(query_v(*b))),
        Query::Or(a, b) => QueryV::Or(Box::new(query_v(*a)), Box::new(query_v(*b))),
        Query::Not(a, b) => QueryV::Not(Box::new(query_v(*a)), Box::new(query_v(*b))),
    }
}

impl View for Query {
    type V = QueryV;

    open spec fn view(&self) -> QueryV {
        query_v(*self)
    }
}

fn clone_query(q: &Query) -> (r: Query)
    ensures
        r@ == q@,
    decreases q,
{
    match q {
        Query::Term { text, prefix } => Query::Term { text: text.clone(), prefix: *prefix },
        Query::Phrase(words) => Query::Phrase(clone_strings(words)),
        Query::Near { terms, distance } => Query::Near {
            terms: clone_strings(terms),
            distance: *distance,
        },
        Query::Column { column, query } => Query::Column {
            column: column.clone(),
            query: Box::new(clone_query(query)),
        },
        Query::And(a, b) => Query::And(Box::new(clone_query(a)), Box::new(clone_query(b))),
        Query::Or(a, b) => Query::Or(Box::new(clone_query(a)), Box::new(clone_query(b))),
        Query::Not(a, b) => Query::Not(Box::new(clone_query(a)), Box::new(clone_query(b))),
    }
}

impl Clone for Query {
    fn clone(&self) -> (r: Query)
        ensures
            r@ == self@,
    {
        clone_query(self)
    }
}

/// The distance of a `NEAR` that gives none.
pub const DEFAULT_NEAR: u32 = 10;

pub open spec fn query_error(msg: Seq<char>) -> ErrorV {
    sql_error("consulta MATCH inválida: "@ + msg)
}

fn err(msg: &str) -> (r: Error)
    ensures
        r@ == query_error(msg@),
{
    sql_err(cat("consulta MATCH inválida: ", msg))
}

// --- words ---

enum QTok {
    Word(String),
    Phrase(String),
    LParen,
    RParen,
    Comma,
    Colon,
    Star,
    And,
    Or,
    Not,
    Near,
}

/// A lexical element of a query.
pub ghost enum QTokV {
    Word(Seq<char>),
    Phrase(Seq<char>),
    LParen,
    RParen,
    Comma,
    Colon,
    Star,
    And,
    Or,
    Not,
    Near,
}

impl View for QTok {
    type V = QTokV;

    closed spec fn view(&self) -> QTokV {
        match self {
            QTok::Word(w) => QTokV::Word(w@),
            QTok::Phrase(w) => QTokV::Phrase(w@),
            QTok::LParen => QTokV::LParen,
            QTok::RParen => QTokV::RParen,
            QTok::Comma => QTokV::Comma,
            QTok::Colon => QTokV::Colon,
            QTok::Star => QTokV::Star,
            QTok::And => QTokV::And,
            QTok::Or => QTokV::Or,
            QTok::Not => QTokV::Not,
            QTok::Near => QTokV::Near,
        }
    }
}

closed spec fn toks_v(s: Seq<QTok>) -> Seq<QTokV> {
    Seq::new(s.len(), |i: int| s[i]@)
}

/// The elements that are written as one character.
pub open spec fn sign(c: char) -> Option<QTokV> {
    if c == '(' {
        Some(QTokV::LParen)
    } else if c == ')' {
        Some(QTokV::RParen)
    } else if c == ',' {
        Some(QTokV::Comma)
    } else if c == ':' {
        Some(QTokV::Colon)
    } else if c == '*' {
        Some(QTokV::Star)
    } else {
        None
    }
}

/// The characters that end a word.
pub open spec fn ends_word(c: char) -> bool {
    is_space(c) || sign(c) is Some || c == '"'
}

/// The end of the word that goes on at `i`.
pub open spec fn query_word_end(s: Seq<char>, i: int) -> int
    decreases s.len() - i,
{
    if 0 <= i < s.len() && !ends_word(s[i]) {
        query_word_end(s, i + 1)
    } else {
        i
    }
}

/// The position of the next quote from `i` on.
pub open spec fn closing_quote(s: Seq<char>, i: int) -> Option<int>
    decreases s.len() - i,
{
    if i < 0 || i >= s.len() {
        None
    } else if s[i] == '"' {
        Some(i)
    } else {
        closing_quote(s, i + 1)
    }
}

pub open spec fn word_tok(w: Seq<char>) -> QTokV {
    if w == "AND"@ {
        QTokV::And
    } else if w == "OR"@ {
        QTokV::Or
    } else if w == "NOT"@ {
        QTokV::Not
    } else if w == "NEAR"@ {
        QTokV::Near
    } else {
        QTokV::Word(w)
    }
}

pub open spec fn first_then(t: QTokV, rest: Result<Seq<QTokV>, ErrorV>) -> Result<Seq<QTokV>, ErrorV> {
    match rest {
        Ok(r) => Ok(seq![t] + r),
        Err(e) => Err(e),
    }
}

/// The lexical elements of a query from `i` on.
pub open spec fn lexed(s: Seq<char>, i: int) -> Result<Seq<QTokV>, ErrorV>
    decreases s.len() - i,
{
    if i < 0 || i >= s.len() {
        Ok(Seq::empty())
    } else if is_space(s[i]) {
        lexed(s, i + 1)
    } else if sign(s[i]) is Some {
        first_then(sign(s[i])->0, lexed(s, i + 1))
    } else if s[i] == '"' {
        match closing_quote(s, i + 1) {
            None => Err(query_error("comilla de frase sin cerrar"@)),
            Some(j) => if i < j < s.len() {
                first_then(QTokV::Phrase(s.subrange(i + 1, j)), lexed(s, j + 1))
            } else {
                Ok(Seq::empty())
            },
        }
    } else {
        let j = query_word_end(s, i);
        if i < j <= s.len() {
            first_then(word_tok(s.subrange(i, j)), lexed(s, j))
        } else {
            Ok(Seq::empty())
        }
    }
}

fn sign_of(c: char) -> (r: Option<QTok>)
    ensures
        (match sign(c) {
            Some(t) => r is Some && r->0@ == t,
            None => r is None,
        }),
{
    if c == '(' {
        Some(QTok::LParen)
    } else if c == ')' {
        Some(QTok::RParen)
    } else if c == ',' {
        Some(QTok::Comma)
    } else if c == ':' {
        Some(QTok::Colon)
    } else if c == '*' {
        Some(QTok::Star)
    } else {
        None
    }
}

fn word_of(w: String) -> (r: QTok)
    ensures
        r@ == word_tok(w@),
{
    if str_eq(w.as_str(), "AND") {
        QTok::And
    } else if str_eq(w.as_str(), "OR") {
        QTok::Or
    } else if str_eq(w.as_str(), "NOT") {
        QTok::Not
    } else if str_eq(w.as_str(), "NEAR") {
        QTok::Near
    } else {
        QTok::Word(w)
    }
}

fn push_tok(out: &mut Vec<QTok>, t: QTok, Ghost(rest): Ghost<Seq<QTokV>>)
    ensures
        toks_v(final(out)@) == toks_v(old(out)@).push(t@),
        toks_v(final(out)@) + rest == toks_v(old(out)@) + (seq![t@] + rest),
{
    out.push(t);
    assert(toks_v(out@) =~= toks_v(old(out)@).push(t@));
    assert(toks_v(out@) + rest =~= toks_v(old(out)@) + (seq![t@] + rest));
}

/// What the whole comes to when the part from here on comes to `rest`.
spec fn whole(done: Seq<QTokV>, rest: Result<Seq<QTokV>, ErrorV>) -> Result<Seq<QTokV>, ErrorV> {
    match rest {
        Ok(r) => Ok(done + r),
        Err(e) => Err(e),
    }
}

#[verifier::loop_isolation(false)]
fn lex(input: &str) -> (r: Result<Vec<QTok>, Error>)
    ensures
        (match lexed(input@, 0) {
            Ok(t) => r is Ok && toks_v(r->Ok_0@) == t,
            Err(e) => r is Err && r->Err_0@ == e,
        }),
{
    let s = chars_of(input);
    let mut out: Vec<QTok> = Vec::new();
    let ghost all = lexed(s@, 0);
    assert(all is Ok ==> toks_v(out@) + all->Ok_0 =~= all->Ok_0);
    let mut i: usize = 0;
    while i < s.len()
        invariant
            i <= s@.len(),
            all == whole(toks_v(out@), lexed(s@, i as int)),
        decreases s@.len() - i,
    {
        let c = s[i];
        if space(c) {
            i = i + 1;
        } else if let Some(t) = sign_of(c) {
            push_tok(&mut out, t, Ghost(lexed(s@, i + 1)->Ok_0));
            i = i + 1;
        } else if c == '"' {
            let mut j: usize = i + 1;
            while j < s.len() && s[j] != '"'
                invariant
                    i < j <= s@.len(),
                    closing_quote(s@, i + 1) == closing_quote(s@, j as int),
                decreases s@.len() - j,
            {
                j = j + 1;
            }
            if j >= s.len() {
                return Err(err("comilla de frase sin cerrar"));
            }
            let w = string_range(s.as_slice(), i + 1, j);
            push_tok(&mut out, QTok::Phrase(w), Ghost(lexed(s@, j + 1)->Ok_0));
            i = j + 1;
        } else {
            let mut j: usize = i;
            while j < s.len() && !space(s[j]) && sign_of(s[j]).is_none() && s[j] != '"'
                invariant
                    i <= j <= s@.len(),
                    query_word_end(s@, i as int) == query_word_end(s@, j as int),
                decreases s@.len() - j,
            {
                j = j + 1;
            }
            let w = string_range(s.as_slice(), i, j);
            push_tok(&mut out, word_of(w), Ghost(lexed(s@, j as int)->Ok_0));
            i = j;
        }
    }
    assert(toks_v(out@) + Seq::<QTokV>::empty() =~= toks_v(out@));
    Ok(out)
}

/// The words of a phrase: its parts between white space.
pub open spec fn words_from(s: Seq<char>, i: int) -> Seq<Seq<char>>
    decreases s.len() - i,
{
    if i < 0 || i >= s.len() {
        Seq::empty()
    } else if is_space(s[i]) {
        words_from(s, i + 1)
    } else {
        let j = part_end(s, i + 1);
        if i < j <= s.len() {
            seq![s.subrange(i, j)] + words_from(s, j)
        } else {
            Seq::empty()
        }
    }
}

/// The next white space from `i` on, or the end.
pub open spec fn part_end(s: Seq<char>, i: int) -> int
    decreases s.len() - i,
{
    if 0 <= i < s.len() && !is_space(s[i]) {
        part_end(s, i + 1)
    } else {
        i
    }
}

fn split_words(text: &str) -> (r: Vec<String>)
    ensures
        strings_v(r@) == words_from(text@, 0),
{
    let s = chars_of(text);
    let mut out: Vec<String> = Vec::new();
    let ghost all = words_from(s@, 0);
    assert(strings_v(out@) + all =~= all);
    let mut i: usize = 0;
    while i < s.len()
        invariant
            i <= s@.len(),
            s@ == text@,
            all == strings_v(out@) + words_from(s@, i as int),
        decreases s@.len() - i,
    {
        if space(s[i]) {
            i = i + 1;
        } else {
            let mut j: usize = i + 1;
            while j < s.len() && !space(s[j])
                invariant
                    i < j <= s@.len(),
                    part_end(s@, i + 1) == part_end(s@, j as int),
                decreases s@.len() - j,
            {
                j = j + 1;
            }
            let ghost before = strings_v(out@);
            let w = string_range(s.as_slice(), i, j);
            out.push(w);
            assert(strings_v(out@) =~= before.push(w@));
            assert(before + (seq![w@] + words_from(s@, j as int)) =~= strings_v(out@) + words_from(
                s@,
                j as int,
            ));
            i = j;
        }
    }
    assert(strings_v(out@) + Seq::<Seq<char>>::empty() =~= strings_v(out@));
    out
}

// --- grammar ---

/// A query and the position after it.
pub type Step = Result<(QueryV, int), ErrorV>;

pub open spec fn at(t: Seq<QTokV>, i: int) -> Option<QTokV> {
    if 0 <= i < t.len() {
        Some(t[i])
    } else {
        None
    }
}

pub open spec fn or_at(t: Seq<QTokV>, i: int) -> Step
    decreases t.len() - i, 6nat,
{
    match and_at(t, i) {
        Err(e) => Err(e),
        Ok((l, j)) => if i < j <= t.len() {
            or_rest(t, l, j)
        } else {
            Ok((l, j))
        },
    }
}

/// The rest of a disjunction that begins with `left`.
pub open spec fn or_rest(t: Seq<QTokV>, left: QueryV, i: int) -> Step
    decreases t.len() - i, 5nat,
{
    if at(t, i) == Some(QTokV::Or) {
        match and_at(t, i + 1) {
            Err(e) => Err(e),
            Ok((r, j)) => if i < j <= t.len() {
                or_rest(t, QueryV::Or(Box::new(left), Box::new(r)), j)
            } else {
                Ok((left, i))
            },
        }
    } else {
        Ok((left, i))
    }
}

pub open spec fn and_at(t: Seq<QTokV>, i: int) -> Step
    decreases t.len() - i, 5nat,
{
    match not_at(t, i) {
        Err(e) => Err(e),
        Ok((l, j)) => if i < j <= t.len() {
            and_rest(t, l, j)
        } else {
            Ok((l, j))
        },
    }
}

/// What may begin a primary.
pub open spec fn starts_primary(t: Option<QTokV>) -> bool {
    match t {
        Some(QTokV::Word(_)) => true,
        Some(QTokV::Phrase(_)) => true,
        Some(QTokV::LParen) => true,
        Some(QTokV::Near) => true,
        _ => false,
    }
}

/// The rest of a conjunction that begins with `left`.
pub open spec fn and_rest(t: Seq<QTokV>, left: QueryV, i: int) -> Step
    decreases t.len() - i, 4nat,
{
    let explicit = at(t, i) == Some(QTokV::And);
    if explicit || starts_primary(at(t, i)) {
        match (if explicit {
            not_at(t, i + 1)
        } else {
            not_at(t, i)
        }) {
            Err(e) => Err(e),
            Ok((r, j)) => if i < j <= t.len() {
                and_rest(t, QueryV::And(Box::new(left), Box::new(r)), j)
            } else {
                Ok((left, i))
            },
        }
    } else {
        Ok((left, i))
    }
}

pub open spec fn not_at(t: Seq<QTokV>, i: int) -> Step
    decreases t.len() - i, 3nat,
{
    match primary_at(t, i) {
        Err(e) => Err(e),
        Ok((l, j)) => if i < j <= t.len() {
            not_rest(t, l, j)
        } else {
            Ok((l, j))
        },
    }
}

/// The rest of a chain of exclusions that begins with `left`.
pub open spec fn not_rest(t: Seq<QTokV>, left: QueryV, i: int) -> Step
    decreases t.len() - i, 2nat,
{
    if at(t, i) == Some(QTokV::Not) {
        match primary_at(t, i + 1) {
            Err(e) => Err(e),
            Ok((r, j)) => if i < j <= t.len() {
                not_rest(t, QueryV::Not(Box::new(left), Box::new(r)), j)
            } else {
                Ok((left, i))
            },
        }
    } else {
        Ok((left, i))
    }
}

pub open spec fn primary_at(t: Seq<QTokV>, i: int) -> Step
    decreases t.len() - i, 1nat,
{
    match at(t, i) {
        Some(QTokV::LParen) => match or_at(t, i + 1) {
            Err(e) => Err(e),
            Ok((q, j)) => if at(t, j) == Some(QTokV::RParen) {
                Ok((q, j + 1))
            } else {
                Err(query_error("falta ')'"@))
            },
        },
        Some(QTokV::Near) => near_at(t, i),
        Some(QTokV::Phrase(s)) => Ok((QueryV::Phrase(words_from(s, 0)), i + 1)),
        Some(QTokV::Word(w)) => if at(t, i + 1) == Some(QTokV::Colon) {
            match primary_at(t, i + 2) {
                Err(e) => Err(e),
                Ok((q, j)) => Ok((QueryV::Column { column: w, query: Box::new(q) }, j)),
            }
        } else if at(t, i + 1) == Some(QTokV::Star) {
            Ok((QueryV::Term { text: w, prefix: true }, i + 2))
        } else {
            Ok((QueryV::Term { text: w, prefix: false }, i + 1))
        },
        _ => Err(query_error("se esperaba un término"@)),
    }
}

/// The words from `i` on, up to the first element that is none.
pub open spec fn word_run(t: Seq<QTokV>, i: int) -> Seq<Seq<char>>
    decreases t.len() - i,
{
    match at(t, i) {
        Some(QTokV::Word(w)) => seq![w] + word_run(t, i + 1),
        _ => Seq::empty(),
    }
}

/// The distance that a numeral gives.
pub open spec fn distance_of(w: Seq<char>) -> Option<u32> {
    match usize_of(w) {
        Some(n) => if n <= u32::MAX {
            Some(n as u32)
        } else {
            None
        },
        None => None,
    }
}

pub open spec fn near_close(t: Seq<QTokV>, terms: Seq<Seq<char>>, distance: u32, i: int) -> Step {
    if at(t, i) == Some(QTokV::RParen) {
        Ok((QueryV::Near { terms, distance }, i + 1))
    } else {
        Err(query_error("falta ')' en NEAR"@))
    }
}

/// `NEAR(...)`, with `NEAR` at `i`.
pub open spec fn near_at(t: Seq<QTokV>, i: int) -> Step {
    if at(t, i + 1) != Some(QTokV::LParen) {
        Err(query_error("NEAR requiere '(' "@))
    } else {
        let terms = word_run(t, i + 2);
        let j = i + 2 + terms.len();
        if terms.len() < 2 {
            Err(query_error("NEAR necesita al menos dos términos"@))
        } else if at(t, j) == Some(QTokV::Comma) {
            match at(t, j + 1) {
                Some(QTokV::Word(w)) => match distance_of(w) {
                    Some(d) => near_close(t, terms, d, j + 2),
                    None => Err(query_error("la distancia de NEAR debe ser un entero"@)),
                },
                _ => Err(query_error("se esperaba la distancia tras ',' en NEAR"@)),
            }
        } else {
            near_close(t, terms, DEFAULT_NEAR, j)
        }
    }
}

/// The query that a text is.
pub open spec fn parsed_query(s: Seq<char>) -> Result<QueryV, ErrorV> {
    match lexed(s, 0) {
        Err(e) => Err(e),
        Ok(t) => match or_at(t, 0) {
            Err(e) => Err(e),
            Ok((q, j)) => if j == t.len() {
                Ok(q)
            } else {
                Err(query_error("token inesperado al final de la consulta MATCH"@))
            },
        },
    }
}

/// The outcome of a parsing function that started at `i`.
closed spec fn stepped(r: Result<(Query, usize), Error>, want: Step, i: int, n: int) -> bool {
    match want {
        Ok((q, j)) => r is Ok && (r->Ok_0).0@ == q && (r->Ok_0).1 == j && i < j <= n,
        Err(e) => r is Err && r->Err_0@ == e,
    }
}

fn or_expr(t: &Vec<QTok>, i: usize) -> (r: Result<(Query, usize), Error>)
    requires
        i <= t@.len(),
    ensures
        stepped(r, or_at(toks_v(t@), i as int), i as int, t@.len() as int),
    decreases t@.len() - i, 6nat,
{
    let ghost tv = toks_v(t@);
    let (mut left, mut j): (Query, usize) = match and_expr(t, i) {
        Err(e) => {
            return Err(e);
        },
        Ok(x) => x,
    };
    while j < t.len() && matches!(t[j], QTok::Or)
        invariant
            i < j <= t@.len(),
            tv == toks_v(t@),
            or_at(tv, i as int) == or_rest(tv, left@, j as int),
        decreases t@.len() - j,
    {
        assert(tv[j as int] == t@[j as int]@);
        match and_expr(t, j + 1) {
            Err(e) => {
                return Err(e);
            },
            Ok((right, k)) => {
                left = Query::Or(Box::new(left), Box::new(right));
                j = k;
            },
        }
    }
    assert(j < t@.len() ==> tv[j as int] == t@[j as int]@);
    Ok((left, j))
}

fn and_expr(t: &Vec<QTok>, i: usize) -> (r: Result<(Query, usize), Error>)
    requires
        i <= t@.len(),
    ensures
        stepped(r, and_at(toks_v(t@), i as int), i as int, t@.len() as int),
    decreases t@.len() - i, 5nat,
{
    let ghost tv = toks_v(t@);
    let (mut left, mut j): (Query, usize) = match not_expr(t, i) {
        Err(e) => {
            return Err(e);
        },
        Ok(x) => x,
    };
    loop
        invariant
            i < j <= t@.len(),
            tv == toks_v(t@),
            and_at(tv, i as int) == and_rest(tv, left@, j as int),
        decreases t@.len() - j,
    {
        assert(j < t@.len() ==> tv[j as int] == t@[j as int]@);
        let from: usize = if j < t.len() {
            match &t[j] {
                QTok::And => j + 1,
                QTok::Word(_) | QTok::Phrase(_) | QTok::LParen | QTok::Near => j,
                _ => {
                    return Ok((left, j));
                },
            }
        } else {
            return Ok((left, j));
        };
        match not_expr(t, from) {
            Err(e) => {
                return Err(e);
            },
            Ok((right, k)) => {
                left = Query::And(Box::new(left), Box::new(right));
                j = k;
            },
        }
    }
}

fn not_expr(t: &Vec<QTok>, i: usize) -> (r: Result<(Query, usize), Error>)
    requires
        i <= t@.len(),
    ensures
        stepped(r, not_at(toks_v(t@), i as int), i as int, t@.len() as int),
    decreases t@.len() - i, 4nat,
{
    let ghost tv = toks_v(t@);
    let (mut left, mut j): (Query, usize) = match primary(t, i) {
        Err(e) => {
            return Err(e);
        },
        Ok(x) => x,
    };
    while j < t.len() && matches!(t[j], QTok::Not)
        invariant
            i < j <= t@.len(),
            tv == toks_v(t@),
            not_at(tv, i as int) == not_rest(tv, left@, j as int),
        decreases t@.len() - j,
    {
        assert(tv[j as int] == t@[j as int]@);
        match primary(t, j + 1) {
            Err(e) => {
                return Err(e);
            },
            Ok((right, k)) => {
                left = Query::Not(Box::new(left), Box::new(right));
                j = k;
            },
        }
    }
    assert(j < t@.len() ==> tv[j as int] == t@[j as int]@);
    Ok((left, j))
}

fn primary(t: &Vec<QTok>, i: usize) -> (r: Result<(Query, usize), Error>)
    requires
        i <= t@.len(),
    ensures
        stepped(r, primary_at(toks_v(t@), i as int), i as int, t@.len() as int),
    decreases t@.len() - i, 3nat,
{
    let ghost tv = toks_v(t@);
    if i >= t.len() {
        return Err(err("se esperaba un término"));
    }
    assert(tv[i as int] == t@[i as int]@);
    assert(i + 1 < t@.len() ==> tv[i + 1] == t@[i + 1]@);
    match &t[i] {
        QTok::LParen => match or_expr(t, i + 1) {
            Err(e) => Err(e),
            Ok((q, j)) => {
                assert(j < t@.len() ==> tv[j as int] == t@[j as int]@);
                if j < t.len() && matches!(t[j], QTok::RParen) {
                    Ok((q, j + 1))
                } else {
                    Err(err("falta ')'"))
                }
            },
        },
        QTok::Near => near(t, i),
        QTok::Phrase(s) => Ok((Query::Phrase(split_words(s.as_str())), i + 1)),
        QTok::Word(w) => {
            if i + 1 < t.len() && matches!(t[i + 1], QTok::Colon) {
                return match primary(t, i + 2) {
                    Err(e) => Err(e),
                    Ok((q, j)) => Ok((Query::Column { column: w.clone(), query: Box::new(q) }, j)),
                };
            }
            if i + 1 < t.len() && matches!(t[i + 1], QTok::Star) {
                Ok((Query::Term { text: w.clone(), prefix: true }, i + 2))
            } else {
                Ok((Query::Term { text: w.clone(), prefix: false }, i + 1))
            }
        },
        _ => Err(err("se esperaba un término")),
    }
}

fn near(t: &Vec<QTok>, i: usize) -> (r: Result<(Query, usize), Error>)
    requires
        i < t@.len(),
    ensures
        stepped(r, near_at(toks_v(t@), i as int), i as int, t@.len() as int),
{
    let ghost tv = toks_v(t@);
    assert(t.len() == t@.len());
    assert(i + 1 < t@.len() ==> tv[i + 1] == t@[i + 1]@);
    if !(i + 1 < t.len() && matches!(t[i + 1], QTok::LParen)) {
        return Err(err("NEAR requiere '(' "));
    }
    let mut terms: Vec<String> = Vec::new();
    let mut j: usize = i + 2;
    let ghost all = word_run(tv, i + 2);
    assert(strings_v(terms@) + all =~= all);
    loop
        invariant_except_break
            i + 2 <= j <= t@.len(),
            tv == toks_v(t@),
            terms@.len() == j - i - 2,
            all == strings_v(terms@) + word_run(tv, j as int),
        ensures
            i + 2 <= j <= t@.len(),
            all == strings_v(terms@),
            terms@.len() == j - i - 2,
        decreases t@.len() - j,
    {
        assert(j < t@.len() ==> tv[j as int] == t@[j as int]@);
        let w = if j < t.len() {
            match &t[j] {
                QTok::Word(w) => Some(w.clone()),
                _ => None,
            }
        } else {
            None
        };
        match w {
            Some(w) => {
                let ghost before = strings_v(terms@);
                terms.push(w);
                assert(strings_v(terms@) =~= before.push(w@));
                assert(before + (seq![w@] + word_run(tv, j + 1)) =~= strings_v(terms@) + word_run(
                    tv,
                    j + 1,
                ));
                j = j + 1;
            },
            None => {
                assert(strings_v(terms@) + Seq::<Seq<char>>::empty() =~= strings_v(terms@));
                break;
            },
        }
    }
    if terms.len() < 2 {
        return Err(err("NEAR necesita al menos dos términos"));
    }
    let mut distance: u32 = DEFAULT_NEAR;
    assert(j < t@.len() ==> tv[j as int] == t@[j as int]@);
    assert(j + 1 < t@.len() ==> tv[j + 1] == t@[j + 1]@);
    if j < t.len() && matches!(t[j], QTok::Comma) {
        if j + 1 < t.len() {
            match &t[j + 1] {
                QTok::Word(w) => {
                    let cs = chars_of(w.as_str());
                    match parse_usize(cs.as_slice()) {
                        Some(n) if n <= u32::MAX as usize => {
                            distance = n as u32;
                        },
                        _ => {
                            return Err(err("la distancia de NEAR debe ser un entero"));
                        },
                    }
                },
                _ => {
                    return Err(err("se esperaba la distancia tras ',' en NEAR"));
                },
            }
        } else {
            return Err(err("se esperaba la distancia tras ',' en NEAR"));
        }
        j = j + 2;
    }
    assert(j < t@.len() ==> tv[j as int] == t@[j as int]@);
    if j < t.len() && matches!(t[j], QTok::RParen) {
        Ok((Query::Near { terms, distance }, j + 1))
    } else {
        Err(err("falta ')' en NEAR"))
    }
}

/// Parses the text of a `MATCH` query.
pub fn parse_query(input: &str) -> (r: Result<Query, Error>)
    ensures
        gives(r, parsed_query(input@)),
{
    let toks = match lex(input) {
        Ok(t) => t,
        Err(e) => {
            return Err(e);
        },
    };
    match or_expr(&toks, 0) {
        Err(e) => Err(e),
        Ok((q, j)) => if j != toks.len() {
            Err(err("token inesperado al final de la consulta MATCH"))
        } else {
            Ok(q)
        },
    }
}

} // verus!
