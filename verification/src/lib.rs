//! A recursive-descent parser for a strict subset of JSON (strings, numbers,
//! arrays and objects; no booleans or nulls), verified against a mathematical
//! description of the grammar it accepts.
//!
//! String and number literals are captured verbatim: escape sequences are not
//! decoded and numbers are kept as their source text.

pub mod grammar;
pub mod laws;
pub mod parser;
pub mod value;
