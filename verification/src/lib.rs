//! Top-N fuzzy matching: for each query string, the closest entries of a
//! reference corpus under an edit-distance metric, one delimited result line
//! per query.

pub mod config;
pub mod engine;
pub mod error;
pub mod format;
pub mod heap;
pub mod metric;
pub mod named_fn;
pub mod rank;
pub mod select;
pub mod text;
