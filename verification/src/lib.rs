//! `rcombinators` is a parser combinator library: a set of composable parsing
//! primitives and combinators over a character stream, with backtracking,
//! position tracking and streaming input.
//!
//! Parsers starting with a capital letter are `struct`s (such as `Int` or
//! `Sequence`), created with `new()`; lower-case ones (such as `string_of`)
//! are functions returning combined parsers. Both kinds implement the
//! `Parser` trait and are used identically.

use vstd::prelude::*;

pub mod combinators;
pub mod parser;
pub mod primitives;
mod state;

pub use combinators::{Alternative, Maybe, PartialSequence, Repeat, Sequence, Then, Transform};
pub use parser::{execerr, Parser, ParserOps};
pub use primitives::{string_none_of, string_of, whitespace, Int, StringParser};
pub use state::{Hold, ParseState};
