//! The failures that lexing and parsing can signal.

use vstd::prelude::*;

verus! {

/// The one lexical failure: a character that is not a punctuation mark was
/// asked for its punctuation kind. The tokenizer answers it by scanning a
/// text run, so it never reaches a caller of the tokenizer.
#[derive(Debug, Clone, Copy, PartialEq, Eq, Structural)]
pub enum TokenError {
    NonCharToken(char),
}

/// A structural failure inside one tag.
#[derive(Debug, Clone, Copy, PartialEq, Eq, Structural)]
pub enum ParseError {
    /// The tokens of a tag do not follow the tag grammar; the tag is dropped.
    Unexpected,
    /// Kept for callers that match on it; the parser never produces it.
    Useless,
}

impl ParseError {
    /// The text that describes this error.
    pub open spec fn spec_message(self) -> Seq<char> {
        match self {
            ParseError::Unexpected => "unexpected"@,
            ParseError::Useless => "useless"@,
        }
    }

    /// The text that describes this error.
    pub fn message(&self) -> (s: String)
        ensures
            s@ == self.spec_message(),
    {
        match self {
            ParseError::Unexpected => "unexpected".to_owned(),
            ParseError::Useless => "useless".to_owned(),
        }
    }
}

} // verus!
