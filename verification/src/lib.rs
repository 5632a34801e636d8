//! Front end of a pattern-matching rule compiler: a mode-switching
//! tokenizer over raw bytes, a parser building a lossless concrete syntax
//! tree and a reduced abstract syntax tree, a semantic validator for rule
//! sets, and a renderer for span-anchored diagnostic reports.  A companion
//! module parses the message format used by mail files.

pub mod span;
pub mod token;
pub mod scan;
pub mod tokenizer;
pub mod cst;
pub mod diag;
pub mod parse;
pub mod ast;
pub mod validate;
pub mod render;
pub mod api;

pub use api::{Parser, report_string, tokenize};
pub mod eml;
