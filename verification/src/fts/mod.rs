//! Full-text search: tokenizers, the query language of `MATCH`, what rows are ranked by, and
//! excerpts.
pub mod excerpt;
pub mod query;
pub mod ranking;
pub mod registry;
pub mod search_laws;
pub mod tokenizer;

pub use excerpt::{highlight, snippet};
pub use query::{parse_query, Query};
pub use registry::{tokenizer_for, AnyTokenizer};
pub use tokenizer::{AsciiTokenizer, Token, Tokenizer, UnicodeTokenizer};
