//! The verified core of the arkeion embedded database: file format, record and
//! key codecs, page bookkeeping, full-text search and the SQL engine.
pub mod bytes;
pub mod catalog;
pub mod error;
pub mod exec;
pub mod format;
pub mod fts;
pub mod ivf;
pub mod keyenc;
pub mod pager;
pub mod pq;
pub mod reals;
pub mod record;
pub mod sql;
pub mod storage_laws;
pub mod text;
