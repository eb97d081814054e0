//! Character classes of the lexer.

use vstd::prelude::*;

verus! {

/// The characters that Unicode classes as `White_Space`.
pub open spec fn is_whitespace(c: char) -> bool {
    ||| '\u{9}' <= c <= '\u{d}'
    ||| c == ' '
    ||| c == '\u{85}'
    ||| c == '\u{a0}'
    ||| c == '\u{1680}'
    ||| '\u{2000}' <= c <= '\u{200a}'
    ||| c == '\u{2028}'
    ||| c == '\u{2029}'
    ||| c == '\u{202f}'
    ||| c == '\u{205f}'
    ||| c == '\u{3000}'
}

/// The five punctuation marks; each one is a token of its own.
pub open spec fn is_punctuation(c: char) -> bool {
    c == '<' || c == '>' || c == '/' || c == '=' || c == '!'
}

/// A character that can stand inside a text run: neither whitespace nor
/// punctuation.
pub open spec fn is_text_char(c: char) -> bool {
    !is_whitespace(c) && !is_punctuation(c)
}

/// A string is blank when it holds nothing but whitespace; the empty string
/// is blank.
pub open spec fn is_blank(s: Seq<char>) -> bool {
    forall|i: int| 0 <= i < s.len() ==> is_whitespace(#[trigger] s[i])
}

/// Tells whether `c` is whitespace.
pub fn char_is_whitespace(c: char) -> (r: bool)
    ensures
        r == is_whitespace(c),
{
    ('\u{9}' <= c && c <= '\u{d}') || c == ' ' || c == '\u{85}' || c == '\u{a0}' || c == '\u{1680}'
        || ('\u{2000}' <= c && c <= '\u{200a}') || c == '\u{2028}' || c == '\u{2029}' || c
        == '\u{202f}' || c == '\u{205f}' || c == '\u{3000}'
}

/// Tells whether `c` is one of the five punctuation marks.
pub fn char_is_punctuation(c: char) -> (r: bool)
    ensures
        r == is_punctuation(c),
{
    c == '<' || c == '>' || c == '/' || c == '=' || c == '!'
}

/// Tells whether `c` can stand inside a text run.
pub fn char_is_text(c: char) -> (r: bool)
    ensures
        r == is_text_char(c),
{
    !char_is_whitespace(c) && !char_is_punctuation(c)
}

} // verus!
