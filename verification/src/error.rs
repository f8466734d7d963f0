//! Errors of the library.
use vstd::prelude::*;

use crate::reals::{RealOp, RealOpV};

verus! {

#[derive(Debug, PartialEq)]
pub enum Error {
    /// Statement error, with the byte position in the source where it is known.
    Sql { msg: String, pos: Option<usize> },
    /// A constraint of the schema is violated.
    Constraint(String),
    NotADatabase,
    UnsupportedFormat { version: u32 },
    UnsupportedPageSize { page_size: u32 },
    /// The bytes of a record are not well formed.
    CorruptRecord(String),
    /// A page of the file is not well formed.
    Corrupt { page: u64, reason: String },
    /// The file is encrypted and no key was given.
    KeyRequired,
    WrongKey,
    InvalidInput(String),
    /// The random source of the system failed.
    Random,
    /// The outcome of a computation on reals, or a random number, is missing from the table.
    NeedsReal(RealOp),
    /// A failure of the store.
    Store(String),
}

#[verifier::ext_equal]
pub enum ErrorV {
    Sql { msg: Seq<char>, pos: Option<usize> },
    Constraint(Seq<char>),
    NotADatabase,
    UnsupportedFormat { version: u32 },
    UnsupportedPageSize { page_size: u32 },
    CorruptRecord(Seq<char>),
    Corrupt { page: u64, reason: Seq<char> },
    KeyRequired,
    WrongKey,
    InvalidInput(Seq<char>),
    Random,
    NeedsReal(RealOpV),
    Store(Seq<char>),
}

impl View for Error {
    type V = ErrorV;

    open spec fn view(&self) -> ErrorV {
        match self {
            Error::Sql { msg, pos } => ErrorV::Sql { msg: msg@, pos: *pos },
            Error::Constraint(s) => ErrorV::Constraint(s@),
            Error::NotADatabase => ErrorV::NotADatabase,
            Error::UnsupportedFormat { version } => ErrorV::UnsupportedFormat { version: *version },
            Error::UnsupportedPageSize { page_size } => ErrorV::UnsupportedPageSize {
                page_size: *page_size,
            },
            Error::CorruptRecord(s) => ErrorV::CorruptRecord(s@),
            Error::Corrupt { page, reason } => ErrorV::Corrupt { page: *page, reason: reason@ },
            Error::KeyRequired => ErrorV::KeyRequired,
            Error::WrongKey => ErrorV::WrongKey,
            Error::InvalidInput(s) => ErrorV::InvalidInput(s@),
            Error::Random => ErrorV::Random,
            Error::NeedsReal(op) => ErrorV::NeedsReal(op@),
            Error::Store(s) => ErrorV::Store(s@),
        }
    }
}

impl Clone for Error {
    fn clone(&self) -> (r: Self)
        ensures
            r@ == self@,
    {
        match self {
            Error::Sql { msg, pos } => Error::Sql { msg: msg.clone(), pos: *pos },
            Error::Constraint(s) => Error::Constraint(s.clone()),
            Error::NotADatabase => Error::NotADatabase,
            Error::UnsupportedFormat { version } => Error::UnsupportedFormat { version: *version },
            Error::UnsupportedPageSize { page_size } => Error::UnsupportedPageSize {
                page_size: *page_size,
            },
            Error::CorruptRecord(s) => Error::CorruptRecord(s.clone()),
            Error::Corrupt { page, reason } => Error::Corrupt {
                page: *page,
                reason: reason.clone(),
            },
            Error::KeyRequired => Error::KeyRequired,
            Error::WrongKey => Error::WrongKey,
            Error::InvalidInput(s) => Error::InvalidInput(s.clone()),
            Error::Random => Error::Random,
            Error::NeedsReal(op) => Error::NeedsReal(op.clone()),
            Error::Store(s) => Error::Store(s.clone()),
        }
    }
}

/// A result with both sides taken by their deep views.
pub open spec fn outcome<T: DeepView>(r: Result<T, Error>) -> Result<T::V, ErrorV> {
    match r {
        Ok(x) => Ok(x.deep_view()),
        Err(e) => Err(e@),
    }
}

/// `r` is the outcome `want`, values and errors taken by their views.
pub open spec fn gives<T: View>(r: Result<T, Error>, want: Result<T::V, ErrorV>) -> bool {
    match want {
        Ok(v) => r is Ok && r->Ok_0@ == v,
        Err(e) => r is Err && r->Err_0@ == e,
    }
}

/// A statement error without a position.
pub open spec fn sql_error(msg: Seq<char>) -> ErrorV {
    ErrorV::Sql { msg, pos: None }
}

pub fn sql_err(msg: String) -> (r: Error)
    ensures
        r@ == sql_error(msg@),
{
    Error::Sql { msg, pos: None }
}

/// A statement error whose message is a literal.
pub fn sql_lit(msg: &str) -> (r: Error)
    ensures
        r@ == sql_error(msg@),
{
    Error::Sql { msg: msg.to_owned(), pos: None }
}

/// A statement error at a byte of the source.
pub fn sql_at(msg: String, pos: usize) -> (r: Error)
    ensures
        r@ == (ErrorV::Sql { msg: msg@, pos: Some(pos) }),
{
    Error::Sql { msg, pos: Some(pos) }
}

} // verus!
