//! A streaming decoder for a JSON-like grammar.
//!
//! The decoder reads a forward-only byte source (a slice together with a
//! cursor position) and produces one tree-shaped [`value::Value`], or one
//! error of the closed taxonomy in [`value::ParseError`].  The grammar covers
//! `null`, `true`, `false`, unsigned decimal integers, strings with
//! single-byte escapes, arrays and objects; `\u` escapes and fractional or
//! signed numbers are deliberately outside the grammar.
//!
//! Every executable function is specified against the mathematical grammar in
//! [`model`]: a recursive family of spec functions that maps a byte sequence
//! and a start position to the decoded tree and the position one past it, or
//! to the exact error the input earns.

pub mod laws;
pub mod model;
pub mod parser;
pub mod text;
pub mod value;

pub use value::{ParseError, Value};
