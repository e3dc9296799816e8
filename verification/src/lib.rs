//! A lexical analyzer for a small C-like expression and statement language.
//!
//! [`tokenize::Tokenizer::tokenize`] turns source text into the ordered
//! sequence of tokens that a parser consumes from the front. What the result
//! is on every input is stated by the spec functions of [`grammar`].

pub mod diagnostic;
pub mod encoding;
pub mod grammar;
pub mod properties;
pub mod tokenize;
pub mod util;
