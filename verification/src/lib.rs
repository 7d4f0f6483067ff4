//! A packrat interpreter for parsing expression grammars (PEGs).
//!
//! A grammar is a table of named rules; `Grammar::parse` matches a stream of
//! characters against a start rule, producing a concrete syntax tree and the
//! unconsumed remainder of the stream. Evaluation is memoized per
//! (rule, position) pair, which also serves as the left-recursion guard.

pub mod buffer;
pub mod peg;
pub mod semantics;
pub mod streams;
pub mod terminal;

pub use terminal::{innit, is_cat, is_digit};
