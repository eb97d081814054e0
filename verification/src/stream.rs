//! The token stream as a whole: what holds of any number of reads in a row.

use crate::chars::is_whitespace;
use crate::token::{lemma_token_at, token_at, TokenView};
use vstd::prelude::*;

verus! {

/// Where the cursor stands after `count` tokens have been read from
/// `cursor` on.
pub open spec fn cursor_after(content: Seq<char>, cursor: int, count: nat) -> int
    decreases count,
{
    if count == 0 {
        cursor
    } else {
        cursor_after(content, token_at(content, cursor).end(), (count - 1) as nat)
    }
}

/// The token that the read with the given index hands out, where reading
/// starts at `cursor` and the first read has index 0.
pub open spec fn nth_token(content: Seq<char>, cursor: int, index: nat) -> TokenView {
    token_at(content, cursor_after(content, cursor, index))
}

/// The characters of the first `count` tokens read from `cursor` on, one
/// token after the other.
pub open spec fn lexemes(content: Seq<char>, cursor: int, count: nat) -> Seq<char>
    decreases count,
{
    if count == 0 {
        Seq::empty()
    } else {
        token_at(content, cursor).kind.lexeme() + lexemes(
            content,
            token_at(content, cursor).end(),
            (count - 1) as nat,
        )
    }
}

/// `text` without its whitespace.
pub open spec fn without_whitespace(text: Seq<char>) -> Seq<char> {
    text.filter(|c: char| !is_whitespace(c))
}

/// The cursor never moves back and never leaves the buffer, however many
/// tokens are read.
pub proof fn lemma_cursor_never_moves_back(content: Seq<char>, cursor: int, count: nat)
    requires
        0 <= cursor <= content.len(),
    ensures
        cursor <= cursor_after(content, cursor, count) <= cursor_after(content, cursor, count + 1)
            <= content.len(),
    decreases count,
{
    lemma_token_at(content, cursor);
    if count == 0 {
        assert(cursor_after(content, cursor, 1) == cursor_after(
            content,
            token_at(content, cursor).end(),
            0,
        ));
    } else {
        lemma_cursor_never_moves_back(
            content,
            token_at(content, cursor).end(),
            (count - 1) as nat,
        );
    }
}

/// Every read before the end of the input consumes at least one character:
/// after `count` reads the cursor has moved by `count` or has reached the
/// end of the buffer.
pub proof fn lemma_cursor_progress(content: Seq<char>, cursor: int, count: nat)
    requires
        0 <= cursor <= content.len(),
    ensures
        cursor_after(content, cursor, count) == content.len() || cursor + count <= cursor_after(
            content,
            cursor,
            count,
        ) < content.len(),
    decreases count,
{
    lemma_token_at(content, cursor);
    if count > 0 {
        let next = token_at(content, cursor).end();
        lemma_cursor_progress(content, next, (count - 1) as nat);
        lemma_cursor_never_moves_back(content, next, (count - 1) as nat);
    }
}

/// The end of the input is reached within as many reads as the buffer has
/// characters left: from then on every read hands out the end of the input
/// and leaves the cursor at the end of the buffer.
pub proof fn lemma_end_of_input_within_length(content: Seq<char>, cursor: int, index: nat)
    requires
        0 <= cursor <= content.len(),
        index >= content.len() - cursor,
    ensures
        nth_token(content, cursor, index).kind is Eof,
        cursor_after(content, cursor, index) == content.len(),
{
    lemma_cursor_progress(content, cursor, index);
    lemma_token_at(content, content.len() as int);
}

/// A text that holds no whitespace is itself without its whitespace.
pub proof fn lemma_without_whitespace_keeps(text: Seq<char>)
    requires
        forall|i: int| 0 <= i < text.len() ==> !is_whitespace(#[trigger] text[i]),
    ensures
        without_whitespace(text) == text,
    decreases text.len(),
{
    reveal(Seq::filter);
    if text.len() > 0 {
        lemma_without_whitespace_keeps(text.drop_last());
    }
}

/// Nothing is left of a text that holds whitespace only.
pub proof fn lemma_without_whitespace_drops(text: Seq<char>)
    requires
        forall|i: int| 0 <= i < text.len() ==> is_whitespace(#[trigger] text[i]),
    ensures
        without_whitespace(text) == Seq::<char>::empty(),
    decreases text.len(),
{
    reveal(Seq::filter);
    if text.len() > 0 {
        lemma_without_whitespace_drops(text.drop_last());
    }
}

/// The tokens tile what was consumed: put one after the other in the order
/// in which they were read, their characters are the consumed part of the
/// buffer without its whitespace. Nothing is lost, nothing occurs twice, and
/// between two tokens lies nothing but the whitespace that was skipped.
pub proof fn lemma_lexemes_rebuild_consumed(content: Seq<char>, cursor: int, count: nat)
    requires
        0 <= cursor <= content.len(),
    ensures
        lexemes(content, cursor, count) == without_whitespace(
            content.subrange(cursor, cursor_after(content, cursor, count)),
        ),
    decreases count,
{
    if count == 0 {
        lemma_without_whitespace_drops(Seq::<char>::empty());
    } else {
        lemma_token_at(content, cursor);
        let token = token_at(content, cursor);
        let end = cursor_after(content, cursor, count);
        lemma_cursor_never_moves_back(content, token.end(), (count - 1) as nat);
        lemma_lexemes_rebuild_consumed(content, token.end(), (count - 1) as nat);
        let gap = content.subrange(cursor, token.start);
        let span = content.subrange(token.start, token.end());
        let rest = content.subrange(token.end(), end);
        assert(content.subrange(cursor, end) =~= gap + span + rest);
        let keep = |c: char| !is_whitespace(c);
        Seq::filter_distributes_over_add(gap + span, rest, keep);
        Seq::filter_distributes_over_add(gap, span, keep);
        lemma_without_whitespace_drops(gap);
        assert forall|i: int| 0 <= i < span.len() implies !is_whitespace(#[trigger] span[i]) by {
            assert(span[i] == token.kind.lexeme()[i]);
        }
        lemma_without_whitespace_keeps(span);
    }
}

/// In a buffer without whitespace the tokens, put one after the other, are
/// the consumed part of the buffer itself.
pub proof fn lemma_lexemes_rebuild_without_gaps(content: Seq<char>, cursor: int, count: nat)
    requires
        0 <= cursor <= content.len(),
        forall|i: int| 0 <= i < content.len() ==> !is_whitespace(#[trigger] content[i]),
    ensures
        lexemes(content, cursor, count) == content.subrange(
            cursor,
            cursor_after(content, cursor, count),
        ),
{
    lemma_lexemes_rebuild_consumed(content, cursor, count);
    lemma_cursor_never_moves_back(content, cursor, count);
    lemma_without_whitespace_keeps(
        content.subrange(cursor, cursor_after(content, cursor, count)),
    );
}

} // verus!
