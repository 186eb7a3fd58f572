//! Lexical analyzer for the ChronoLogica time/interval language.
//!
//! Source text is a sequence of bytes; `lexer::tokenize` turns it into an
//! ordered sequence of typed tokens by repeated maximal-munch matching
//! against a fixed, ordered table of token categories, validating each
//! token before it enters the stream.
use vstd::prelude::*;

pub mod lexer;
pub mod matcher;
pub mod token;

verus! {

} // verus!
