//! Differential testing of two parser builds: the parts that compare what
//! the two parsers reported and fold the differences of many files into
//! one report.

pub mod aggregate;
pub mod complog;
pub mod corpus;
pub mod differ;
pub mod diffing;
pub mod errors;
pub mod finds;
pub mod indexing;
pub mod json;
pub mod normalize;
pub mod parsing;
pub mod reporting;
pub mod search;
pub mod table;
pub mod text;
