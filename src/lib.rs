//! Filtering a process table with a small query language: a tokenizer, a
//! recursive-descent parser, a pass that compiles text criteria into regular
//! expressions, and an evaluator for one process at a time.

pub mod ast;
pub mod compile;
pub mod laws;
pub mod matcher;
pub mod number;
pub mod parse;
pub mod text;
pub mod token;

pub use ast::{
    And, NumericalQuery, Or, Prefix, PrefixType, ProcessRecord, Query, QueryComparison, StringQuery,
};
pub use compile::{ProcessQuery, SearchState, parse_query};
pub use number::Decimal;
pub use parse::QueryError;
pub mod big;
