//! A CBORPath engine: queries and rewrites over tree-structured CBOR-like
//! documents, driven by a compiled path expression.
//!
//! `value` holds the document model, `ast` the compiled expressions,
//! `eval` the mathematical model of evaluation, `cbor_path` the evaluator
//! itself, `write` the mutation engine, `convert` the expression syntax
//! over document values, `builder` the step-by-step construction, and
//! `laws` the properties proved of all of them.

pub mod ast;
pub mod builder;
pub mod cbor_path;
pub mod convert;
pub mod error;
pub mod eval;
pub mod laws;
pub mod path;
pub mod regexp;
pub mod value;
pub mod write;
