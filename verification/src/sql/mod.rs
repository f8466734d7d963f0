//! The SQL dialect.
pub mod ast;
pub mod walk;
pub mod datetime;
pub mod datetime_laws;
pub mod instant_text;
pub mod json;
pub mod json_text;
pub mod lexer;
pub mod lexer_laws;
pub mod grammar;
pub mod grammar_laws;
pub mod parser;
