//! A path language for YAML documents.
//!
//! A path expression such as `$.store.book[?(@.price < 10)].title` selects
//! values from a document: [`parse_path`] reads the expression,
//! [`evaluate_path`] applies it to a [`Value`], and [`query`] does both on
//! a YAML text.
//!
//! What the functions compute is stated over mathematical models:
//!
//! - [`value`] and [`types`] hold the documents and the path expressions,
//!   each with the tree that it stands for;
//! - [`grammar`] says what the parser in [`parser`] reads, and [`notation`]
//!   proves that it reads back what is written in the language;
//! - [`semantics`] says what a path selects, [`evaluator`] computes it, and
//!   [`laws`] proves what holds of every document and path;
//! - [`order`] orders the values that a filter compares, floats by the
//!   numbers that [`decimal`] reads from their texts;
//! - [`loader`] reads YAML texts, [`query`] queries them, and [`parse`] and
//!   [`json`] lay them out as JSON text.

pub mod decimal;
pub mod error;
pub mod evaluator;
pub mod grammar;
pub mod json;
pub mod laws;
pub mod loader;
pub mod notation;
pub mod order;
pub mod parse;
pub mod parser;
pub mod query;
pub mod semantics;
pub mod text;
pub mod types;
pub mod value;

pub use error::ParseError;
pub use evaluator::{evaluate_filter, evaluate_path};
pub use parser::{parse_filter_expression, parse_path, parse_path_segment};
pub use query::{query, QueryError};
pub use types::{FilterExpr, Operator, PathExpr};
pub use value::Value;
