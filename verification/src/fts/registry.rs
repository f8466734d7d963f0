//! The tokenizers by the names under which indexes record them.
use vstd::prelude::*;

use crate::error::{sql_err, Error, ErrorV};
#[allow(unused_imports)]
use crate::error::sql_error;
#[allow(unused_imports)]
use crate::fts::tokenizer::TokenV;
use crate::fts::tokenizer::{AsciiTokenizer, Token, Tokenizer, UnicodeTokenizer};
use crate::text::{cat3, str_eq};

verus! {

/// One of the registered tokenizers.
#[derive(Clone, Debug)]
pub enum AnyTokenizer {
    Unicode(UnicodeTokenizer),
    Ascii(AsciiTokenizer),
}

impl Tokenizer for AnyTokenizer {
    open spec fn tokens(&self, text: Seq<char>) -> Seq<TokenV> {
        match self {
            AnyTokenizer::Unicode(t) => t.tokens(text),
            AnyTokenizer::Ascii(t) => t.tokens(text),
        }
    }

    open spec fn label(&self) -> Seq<char> {
        match self {
            AnyTokenizer::Unicode(t) => t.label(),
            AnyTokenizer::Ascii(t) => t.label(),
        }
    }

    fn tokenize(&self, text: &str, out: &mut Vec<Token>) {
        match self {
            AnyTokenizer::Unicode(t) => t.tokenize(text, out),
            AnyTokenizer::Ascii(t) => t.tokenize(text, out),
        }
    }

    fn name(&self) -> (r: &str) {
        match self {
            AnyTokenizer::Unicode(t) => t.name(),
            AnyTokenizer::Ascii(t) => t.name(),
        }
    }
}

/// The tokenizer that a name stands for.
pub open spec fn registered(name: Seq<char>) -> Result<AnyTokenizer, ErrorV> {
    if name == "unicode"@ {
        Ok(AnyTokenizer::Unicode(UnicodeTokenizer { fold_diacritics: true, max_token_len: None }))
    } else if name == "ascii"@ {
        Ok(AnyTokenizer::Ascii(AsciiTokenizer))
    } else {
        Err(
            sql_error(
                "tokenizer FTS desconocido: «"@ + name + "» (válidos: unicode, ascii)"@,
            ),
        )
    }
}

pub fn tokenizer_for(name: &str) -> (r: Result<AnyTokenizer, Error>)
    ensures
        (match registered(name@) {
            Ok(t) => r is Ok && r->Ok_0 == t,
            Err(e) => r is Err && r->Err_0@ == e,
        }),
{
    if str_eq(name, "unicode") {
        Ok(AnyTokenizer::Unicode(UnicodeTokenizer { fold_diacritics: true, max_token_len: None }))
    } else if str_eq(name, "ascii") {
        Ok(AnyTokenizer::Ascii(AsciiTokenizer))
    } else {
        Err(
            sql_err(
                cat3("tokenizer FTS desconocido: «", name, "» (válidos: unicode, ascii)"),
            ),
        )
    }
}

/// A registered tokenizer is recorded under the name by which it is found.
pub proof fn registered_by_label(name: Seq<char>)
    requires
        registered(name) is Ok,
    ensures
        registered(name)->Ok_0.label() == name,
{
}

} // verus!
