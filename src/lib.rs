//! A parsing-expression-grammar combinator library.
//!
//! A grammar is a value built from terminal parsers (characters, character
//! ranges, literal text, any character, end of input) with the operators of
//! [`Parser`]: sequences (tuples), ordered choice, repetition, look-ahead,
//! mapping and named rules. Self-referential rules go through [`rec`].
//!
//! Every parser states, through [`Parser::outcome`], what it may report on a
//! given input, and [`Parser::p_arse`] is proved to report one of those
//! outcomes and to consume only a prefix of its input. The laws that hold of
//! the operators are proved in [`laws`].

pub mod error;
pub mod function;
pub mod laws;
pub mod literal;
pub mod misc;
pub mod parser;
pub mod pattern;
pub mod sequence;
pub mod utils;
pub mod wrapper;

pub use crate::error::{Error, Result};
pub use crate::function::{fun, rec, Fun};
pub use crate::literal::CharExt;
pub use crate::parser::Parser;
pub use crate::utils::{any, eoi};
