//! A lenient, single-pass lexer and flat element extractor for loosely
//! structured HTML-like text.
//!
//! The [`token::Tokenizer`] walks a character buffer with one forward-only
//! cursor and hands out one token per call. The [`parser::Parser`] pulls those
//! tokens and groups them into an ordered, non-nested sequence of tag markers
//! and text runs. Nothing here builds a tree, balances tags or decodes
//! entities.
//!
//! All offsets are counted in characters, not bytes.
//!
//! Three choices shape what the parser returns:
//!
//! - A comment leaves no element; its content is discarded.
//! - A `<` with whitespace behind it is text of its own, and what follows it
//!   is read as if the `<` had not been there: `< untag` gives the two text
//!   elements `<` and `untag`.
//! - A tag that the input leaves open is dropped like any other tag that
//!   breaks the grammar; the elements found before it stay.

pub mod chars;
pub mod element;
pub mod error;
pub mod parser;
pub mod stream;
mod strings;
pub mod token;
