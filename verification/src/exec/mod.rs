//! The SQL executor.
pub mod aggregate;
pub mod aggregate_laws;
pub mod change;
pub mod check;
pub mod eval;
pub mod execute;
pub mod check_laws;
pub mod ddl_laws;
pub mod function_laws;
pub mod functions;
pub mod joins;
pub mod journal;
pub mod json_fns;
pub mod math_fns;
pub mod memory;
pub mod ops;
pub mod output;
pub mod pattern;
pub mod plan;
pub mod printf;
pub mod random;
pub mod json_laws;
pub mod match_laws;
pub mod memory_laws;
pub mod output_laws;
pub mod plan_laws;
pub mod printf_laws;
pub mod row_laws;
pub mod scope_laws;
pub mod rows;
pub mod schema;
pub mod select;
pub mod select_laws;
pub mod source;
pub mod statement_laws;
pub mod streaming;
pub mod strings;
pub mod subquery;
pub mod value_laws;
pub mod window;
pub mod window_laws;
pub mod write;
pub mod write_laws;
