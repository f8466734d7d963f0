//! What a row is ranked by: how often the terms of a query occur in it, and how long it is.
use vstd::prelude::*;

use crate::catalog::{FtsIndexDef, FtsIndexDefV};
#[allow(unused_imports)]
use crate::catalog::{strings_v, usizes_v};
use crate::error::{Error, ErrorV};
use crate::fts::registry::tokenizer_for;
#[allow(unused_imports)]
use crate::fts::registry::{registered, AnyTokenizer};
use crate::fts::tokenizer::{Token, TokenV, Tokenizer};
#[allow(unused_imports)]
use crate::fts::tokenizer::tokens_v;
use crate::record::{Value, ValueV};
#[allow(unused_imports)]
use crate::record::row_view;
use crate::text::str_eq;

verus! {

/// What a store knows of a full-text query: its terms, none of them twice, in how many
/// documents each occurs, how many documents there are and how many tokens they have.
#[derive(Debug)]
pub struct RankStats {
    pub terms: Vec<String>,
    pub frequencies: Vec<u64>,
    pub documents: u64,
    pub tokens: u64,
}

#[verifier::ext_equal]
pub ghost struct RankStatsV {
    pub terms: Seq<Seq<char>>,
    pub frequencies: Seq<u64>,
    pub documents: u64,
    pub tokens: u64,
}

impl View for RankStats {
    type V = RankStatsV;

    open spec fn view(&self) -> RankStatsV {
        RankStatsV {
            terms: strings_v(self.terms@),
            frequencies: self.frequencies@,
            documents: self.documents,
            tokens: self.tokens,
        }
    }
}

/// The tokens of the columns from `i` on; only texts have any.
pub open spec fn document<T: Tokenizer>(tk: &T, columns: Seq<usize>, row: Seq<ValueV>, i: int) -> Seq<TokenV>
    decreases columns.len() - i,
{
    if i < 0 || i >= columns.len() {
        Seq::empty()
    } else {
        let own = if columns[i] < row.len() {
            match row[columns[i] as int] {
                ValueV::Text(t) => tk.tokens(t),
                _ => Seq::empty(),
            }
        } else {
            Seq::empty()
        };
        own + document(tk, columns, row, i + 1)
    }
}

/// How many tokens are that term.
pub open spec fn occurrences(toks: Seq<TokenV>, term: Seq<char>) -> nat {
    toks.filter(|t: TokenV| t.text == term).len()
}

/// How often each term occurs in a row, and how many tokens the row has.
pub open spec fn counted(fts: FtsIndexDefV, row: Seq<ValueV>, terms: Seq<Seq<char>>) -> Result<
    (Seq<u64>, u64),
    ErrorV,
> {
    match registered(fts.tokenizer) {
        Err(e) => Err(e),
        Ok(tk) => {
            let toks = document(&tk, fts.columns, row, 0);
            Ok((Seq::new(terms.len(), |k: int| occurrences(toks, terms[k]) as u64), toks.len() as u64))
        },
    }
}

fn count_of(toks: &Vec<Token>, term: &str) -> (r: u64)
    ensures
        r == occurrences(tokens_v(toks@), term@),
{
    let n: usize = toks.len();
    let ghost tv = tokens_v(toks@);
    let ghost same = |t: TokenV| t.text == term@;
    let mut c: usize = 0;
    assert(tv.take(0).filter(same) =~= Seq::empty()) by {
        reveal(Seq::filter);
    }
    for i in 0..n
        invariant
            n == toks@.len(),
            tv == tokens_v(toks@),
            same == (|t: TokenV| t.text == term@),
            c <= i,
            c == tv.take(i as int).filter(same).len(),
    {
        proof {
            assert(tv[i as int] == toks@[i as int]@);
            assert(tv.take(i + 1).drop_last() =~= tv.take(i as int));
            assert(tv.take(i + 1).last() == tv[i as int]);
            reveal(Seq::filter);
        }
        if str_eq(toks[i].text.as_str(), term) {
            c = c + 1;
        }
    }
    assert(tv.take(n as int) =~= tv);
    c as u64
}

/// How often each term occurs in the indexed texts of a row, and how many tokens these have.
pub fn term_counts(fts: &FtsIndexDef, row: &Vec<Value>, terms: &Vec<String>) -> (r: Result<
    (Vec<u64>, u64),
    Error,
>)
    ensures
        (match counted(fts@, row_view(row@), strings_v(terms@)) {
            Ok((counts, len)) => r is Ok && (r->Ok_0).0@ == counts && (r->Ok_0).1 == len,
            Err(e) => r is Err && r->Err_0@ == e,
        }),
{
    let tk = match tokenizer_for(fts.tokenizer.as_str()) {
        Ok(t) => t,
        Err(e) => {
            return Err(e);
        },
    };
    let mut toks: Vec<Token> = Vec::new();
    let n: usize = fts.columns.len();
    let ghost rv = row_view(row@);
    let ghost cs = fts@.columns;
    let ghost whole = document(&tk, cs, rv, 0);
    assert(tokens_v(toks@) =~= Seq::empty());
    assert(tokens_v(toks@) + whole =~= whole);
    for i in 0..n
        invariant
            n == fts.columns@.len(),
            n == cs.len(),
            cs == fts@.columns,
            rv == row_view(row@),
            whole == document(&tk, cs, rv, 0),
            tokens_v(toks@) + document(&tk, cs, rv, i as int) == whole,
    {
        let ghost before = tokens_v(toks@);
        let c: usize = fts.columns[i];
        assert(cs[i as int] == c);
        if c < row.len() {
            assert(rv[c as int] == row@[c as int]@);
            if let Value::Text(t) = &row[c] {
                tk.tokenize(t.as_str(), &mut toks);
            }
        }
        assert(before + document(&tk, cs, rv, i as int) =~= tokens_v(toks@) + document(&tk, cs, rv, i + 1));
    }
    assert(tokens_v(toks@) =~= whole);
    let m: usize = terms.len();
    let ghost ts = strings_v(terms@);
    let mut counts: Vec<u64> = Vec::new();
    for k in 0..m
        invariant
            m == terms@.len(),
            ts == strings_v(terms@),
            tokens_v(toks@) == whole,
            counts@.len() == k,
            forall|j: int| 0 <= j < k ==> #[trigger] counts@[j] == occurrences(whole, ts[j]) as u64,
    {
        assert(ts[k as int] == terms@[k as int]@);
        counts.push(count_of(&toks, terms[k].as_str()));
    }
    let len: u64 = toks.len() as u64;
    assert(tokens_v(toks@).len() == toks@.len());
    assert(counts@ =~= Seq::new(ts.len(), |k: int| occurrences(whole, ts[k]) as u64));
    Ok((counts, len))
}

} // verus!
