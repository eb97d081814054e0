//! Tokens and the tokenizer that produces them.

use crate::chars::{
    char_is_text, char_is_whitespace, is_blank, is_punctuation, is_text_char, is_whitespace,
};
use crate::element::{Element, ElementView};
use crate::error::TokenError;
use crate::strings::{cow_clone, cow_eq};
use std::borrow::Cow;
use vstd::prelude::*;
use vstd::std_specs::cmp::PartialEqSpecImpl;
use vstd::std_specs::convert::TryFromSpecImpl;

verus! {

/// What a token is: one of the five punctuation marks, a run of text, or the
/// end of the input.
///
/// A text run that the tokenizer hands out borrows its characters from the
/// buffer; nothing is copied.
#[derive(Debug)]
pub enum TokenKind<'a> {
    /// Corresponds to `<`
    LAngle,
    /// Corresponds to `>`
    RAngle,
    /// Corresponds to `/`
    Backslash,
    /// Corresponds to `=`
    Equals,
    /// Corresponds to `!`
    Exclamation,
    /// A run of characters that holds neither whitespace nor punctuation
    Text(Cow<'a, str>),
    /// End of the input
    Eof,
}

/// The mathematical value of a [`TokenKind`]: a text run is the sequence of
/// its characters.
pub enum TokenKindView {
    LAngle,
    RAngle,
    Backslash,
    Equals,
    Exclamation,
    Text(Seq<char>),
    Eof,
}

impl<'a> View for TokenKind<'a> {
    type V = TokenKindView;

    open spec fn view(&self) -> TokenKindView {
        match self {
            TokenKind::LAngle => TokenKindView::LAngle,
            TokenKind::RAngle => TokenKindView::RAngle,
            TokenKind::Backslash => TokenKindView::Backslash,
            TokenKind::Equals => TokenKindView::Equals,
            TokenKind::Exclamation => TokenKindView::Exclamation,
            TokenKind::Text(text) => TokenKindView::Text(text@),
            TokenKind::Eof => TokenKindView::Eof,
        }
    }
}

impl<'a> Clone for TokenKind<'a> {
    /// A copy of the kind; a text run that borrows its characters is copied
    /// as the same borrow.
    fn clone(&self) -> (kind: Self)
        ensures
            kind@ == self@,
    {
        match self {
            TokenKind::LAngle => TokenKind::LAngle,
            TokenKind::RAngle => TokenKind::RAngle,
            TokenKind::Backslash => TokenKind::Backslash,
            TokenKind::Equals => TokenKind::Equals,
            TokenKind::Exclamation => TokenKind::Exclamation,
            TokenKind::Text(text) => TokenKind::Text(cow_clone(text)),
            TokenKind::Eof => TokenKind::Eof,
        }
    }
}

impl<'a> PartialEq for TokenKind<'a> {
    /// Two kinds are equal when they are the same variant and, for text,
    /// hold the same characters.
    fn eq(&self, other: &Self) -> (r: bool) {
        match (self, other) {
            (TokenKind::LAngle, TokenKind::LAngle) => true,
            (TokenKind::RAngle, TokenKind::RAngle) => true,
            (TokenKind::Backslash, TokenKind::Backslash) => true,
            (TokenKind::Equals, TokenKind::Equals) => true,
            (TokenKind::Exclamation, TokenKind::Exclamation) => true,
            (TokenKind::Text(text), TokenKind::Text(other_text)) => cow_eq(text, other_text),
            (TokenKind::Eof, TokenKind::Eof) => true,
            _ => false,
        }
    }
}

impl<'a> PartialEqSpecImpl for TokenKind<'a> {
    open spec fn obeys_eq_spec() -> bool {
        true
    }

    open spec fn eq_spec(&self, other: &Self) -> bool {
        self@ == other@
    }
}

impl<'a> Eq for TokenKind<'a> {

}

/// The kind of the punctuation mark `c`.
pub open spec fn punctuation_kind(c: char) -> TokenKindView
    recommends
        is_punctuation(c),
{
    if c == '<' {
        TokenKindView::LAngle
    } else if c == '>' {
        TokenKindView::RAngle
    } else if c == '/' {
        TokenKindView::Backslash
    } else if c == '=' {
        TokenKindView::Equals
    } else {
        TokenKindView::Exclamation
    }
}

impl TokenKindView {
    /// The characters that a token of this kind stands for.
    pub open spec fn lexeme(self) -> Seq<char> {
        match self {
            TokenKindView::LAngle => seq!['<'],
            TokenKindView::RAngle => seq!['>'],
            TokenKindView::Backslash => seq!['/'],
            TokenKindView::Equals => seq!['='],
            TokenKindView::Exclamation => seq!['!'],
            TokenKindView::Text(text) => text,
            TokenKindView::Eof => Seq::empty(),
        }
    }
}

impl<'a> TokenKind<'a> {
    /// Whether the kind holds no text of its own: a text run borrows its
    /// characters, and the other kinds hold none.
    pub open spec fn borrowed(self) -> bool {
        match self {
            TokenKind::Text(text) => text is Borrowed,
            _ => true,
        }
    }

    /// A text run that borrows the given content.
    #[inline]
    pub fn text(text: &'a str) -> (kind: Self)
        ensures
            kind == TokenKind::Text(Cow::Borrowed(text)),
    {
        TokenKind::Text(Cow::Borrowed(text))
    }
}

impl<'a> TryFrom<char> for TokenKind<'a> {
    type Error = TokenError;

    /// The punctuation kind of `value`, or the lexical error for any other
    /// character.
    fn try_from(value: char) -> (r: Result<Self, TokenError>)
        ensures
            is_punctuation(value) ==> r is Ok && r->Ok_0@ == punctuation_kind(value),
            !is_punctuation(value) ==> r == Err::<Self, TokenError>(TokenError::NonCharToken(value)),
    {
        match value {
            '<' => Ok(TokenKind::LAngle),
            '>' => Ok(TokenKind::RAngle),
            '/' => Ok(TokenKind::Backslash),
            '=' => Ok(TokenKind::Equals),
            '!' => Ok(TokenKind::Exclamation),
            _ => Err(TokenError::NonCharToken(value)),
        }
    }
}

impl<'a> TryFromSpecImpl<char> for TokenKind<'a> {
    open spec fn obeys_try_from_spec() -> bool {
        true
    }

    open spec fn try_from_spec(value: char) -> Result<Self, TokenError> {
        if value == '<' {
            Ok(TokenKind::LAngle)
        } else if value == '>' {
            Ok(TokenKind::RAngle)
        } else if value == '/' {
            Ok(TokenKind::Backslash)
        } else if value == '=' {
            Ok(TokenKind::Equals)
        } else if value == '!' {
            Ok(TokenKind::Exclamation)
        } else {
            Err(TokenError::NonCharToken(value))
        }
    }
}

/// A lexical unit: the span of the buffer that was consumed for it, and its
/// kind. Offsets count characters.
#[derive(Debug)]
pub struct Token<'a> {
    pub start: usize,
    pub len: usize,
    pub kind: TokenKind<'a>,
}

/// The mathematical value of a [`Token`].
pub struct TokenView {
    pub start: int,
    pub len: int,
    pub kind: TokenKindView,
}

impl TokenView {
    /// The offset just behind the token's span.
    pub open spec fn end(self) -> int {
        self.start + self.len
    }

    /// A token of the tokenizer is well formed: a text run is as long as its
    /// span and not empty, a punctuation mark spans one character, and the
    /// end of the input is the only token with an empty span.
    pub open spec fn well_formed(self) -> bool {
        &&& 0 <= self.start
        &&& match self.kind {
            TokenKindView::Eof => self.len == 0,
            TokenKindView::Text(text) => self.len == text.len() && self.len > 0
                && forall|i: int| 0 <= i < text.len() ==> is_text_char(#[trigger] text[i]),
            _ => self.len == 1,
        }
    }

    /// The token lies in `content`, and its kind says what `content` holds at
    /// its span.
    pub open spec fn spans(self, content: Seq<char>) -> bool {
        &&& 0 <= self.start
        &&& 0 <= self.len
        &&& self.end() <= content.len()
        &&& content.subrange(self.start, self.end()) == self.kind.lexeme()
    }
}

impl<'a> View for Token<'a> {
    type V = TokenView;

    open spec fn view(&self) -> TokenView {
        TokenView { start: self.start as int, len: self.len as int, kind: self.kind@ }
    }
}

impl<'a> Clone for Token<'a> {
    /// A copy of the token.
    fn clone(&self) -> (token: Self)
        ensures
            token@ == self@,
    {
        Token { start: self.start, len: self.len, kind: self.kind.clone() }
    }
}

impl<'a> PartialEq for Token<'a> {
    /// Two tokens are equal when they have the same span and the same kind.
    fn eq(&self, other: &Self) -> (r: bool) {
        self.start == other.start && self.len == other.len && self.kind == other.kind
    }
}

impl<'a> PartialEqSpecImpl for Token<'a> {
    open spec fn obeys_eq_spec() -> bool {
        true
    }

    open spec fn eq_spec(&self, other: &Self) -> bool {
        self@ == other@
    }
}

impl<'a> Eq for Token<'a> {

}

impl<'a> Token<'a> {
    /// A token from its three parts.
    pub fn new(start: usize, len: usize, kind: TokenKind<'a>) -> (token: Self)
        ensures
            token.start == start,
            token.len == len,
            token.kind == kind,
    {
        Token { start, len, kind }
    }

    /// The end-of-input token at `start`: its span is empty.
    pub fn eof(start: usize) -> (token: Self)
        ensures
            token.start == start,
            token.len == 0,
            token.kind == TokenKind::<'a>::Eof,
    {
        Token { start, kind: TokenKind::Eof, len: 0usize }
    }

    /// A token that spans the one character at `start`.
    pub fn single(start: usize, kind: TokenKind<'a>) -> (token: Self)
        ensures
            token.start == start,
            token.len == 1,
            token.kind == kind,
    {
        Token { start, kind, len: 1usize }
    }
}

/// The offset of the first character at or behind `from` that is not
/// whitespace, or the length of `content` where only whitespace is left.
pub open spec fn skip_whitespace(content: Seq<char>, from: int) -> int
    decreases content.len() - from,
{
    if 0 <= from < content.len() && is_whitespace(content[from]) {
        skip_whitespace(content, from + 1)
    } else {
        from
    }
}

/// The offset at which the text run that starts at `from` ends: that of the
/// first character at or behind `from` that is whitespace or punctuation, or
/// the length of `content`.
pub open spec fn text_end(content: Seq<char>, from: int) -> int
    decreases content.len() - from,
{
    if 0 <= from < content.len() && is_text_char(content[from]) {
        text_end(content, from + 1)
    } else {
        from
    }
}

/// Whether the character at `cursor` is whitespace. Behind the last
/// character there is none, so the answer is no.
pub open spec fn at_whitespace(content: Seq<char>, cursor: int) -> bool {
    0 <= cursor < content.len() && is_whitespace(content[cursor])
}

/// The token that a tokenizer over `content` hands out when its cursor
/// stands at `cursor`.
///
/// Whitespace at the cursor is skipped first. Where nothing is left, the
/// token is the end of the input, at the length of `content`. A punctuation
/// mark is a token of one character. Anything else starts a text run, which
/// goes on up to the next whitespace or punctuation.
pub open spec fn token_at(content: Seq<char>, cursor: int) -> TokenView {
    let start = skip_whitespace(content, cursor);
    if start >= content.len() {
        TokenView { start, len: 0, kind: TokenKindView::Eof }
    } else if is_punctuation(content[start]) {
        TokenView { start, len: 1, kind: punctuation_kind(content[start]) }
    } else {
        let end = text_end(content, start);
        TokenView {
            start,
            len: end - start,
            kind: TokenKindView::Text(content.subrange(start, end)),
        }
    }
}

/// `skip_whitespace` stops at the first character that is not whitespace:
/// all that it passes over is whitespace, and where it stops short of the
/// end, the character there is none.
pub proof fn lemma_skip_whitespace(content: Seq<char>, from: int)
    requires
        0 <= from <= content.len(),
    ensures
        from <= skip_whitespace(content, from) <= content.len(),
        forall|i: int|
            from <= i < skip_whitespace(content, from) ==> is_whitespace(#[trigger] content[i]),
        skip_whitespace(content, from) < content.len() ==> !is_whitespace(
            content[skip_whitespace(content, from)],
        ),
    decreases content.len() - from,
{
    if from < content.len() && is_whitespace(content[from]) {
        lemma_skip_whitespace(content, from + 1);
    }
}

/// `text_end` stops at the first character that cannot stand in a text run:
/// all that it passes over is text, and where it stops short of the end, the
/// character there is whitespace or punctuation.
pub proof fn lemma_text_end(content: Seq<char>, from: int)
    requires
        0 <= from <= content.len(),
    ensures
        from <= text_end(content, from) <= content.len(),
        forall|i: int| from <= i < text_end(content, from) ==> is_text_char(#[trigger] content[i]),
        text_end(content, from) < content.len() ==> !is_text_char(
            content[text_end(content, from)],
        ),
    decreases content.len() - from,
{
    if from < content.len() && is_text_char(content[from]) {
        lemma_text_end(content, from + 1);
    }
}

/// What holds of every token of the tokenizer.
///
/// The token starts at or behind the cursor, and all that lies between the
/// two is whitespace. It lies in the buffer, and its kind says what the
/// buffer holds at its span. It is well formed, so a text run is never
/// empty. Its first character is not whitespace, and a text run ends at the
/// end of the buffer or in front of whitespace or punctuation. It is the end
/// of the input exactly when nothing but whitespace is left, and it then
/// stands at the end of the buffer.
pub proof fn lemma_token_at(content: Seq<char>, cursor: int)
    requires
        0 <= cursor <= content.len(),
    ensures
        cursor <= token_at(content, cursor).start,
        forall|i: int|
            cursor <= i < token_at(content, cursor).start ==> is_whitespace(#[trigger] content[i]),
        token_at(content, cursor).spans(content),
        token_at(content, cursor).well_formed(),
        token_at(content, cursor).kind is Eof <==> token_at(content, cursor).start
            == content.len(),
        !(token_at(content, cursor).kind is Eof) ==> !is_whitespace(
            content[token_at(content, cursor).start],
        ),
        token_at(content, cursor).kind is Text && token_at(content, cursor).end() < content.len()
            ==> !is_text_char(content[token_at(content, cursor).end()]),
        !(token_at(content, cursor).kind is Text) && !(token_at(content, cursor).kind is Eof)
            ==> token_at(content, cursor).kind == punctuation_kind(
            content[token_at(content, cursor).start],
        ) && is_punctuation(content[token_at(content, cursor).start]),
{
    lemma_skip_whitespace(content, cursor);
    let start = skip_whitespace(content, cursor);
    let token = token_at(content, cursor);
    if start < content.len() {
        if is_punctuation(content[start]) {
            assert(content.subrange(start, start + 1) =~= token.kind.lexeme());
        } else {
            lemma_text_end(content, start);
        }
    } else {
        assert(content.subrange(start, start) =~= Seq::<char>::empty());
    }
}

/// The forward-only reader of tokens over one borrowed buffer.
///
/// It borrows the buffer for its whole life and owns the one cursor into it.
/// The cursor only moves forward and never passes the end of the buffer.
pub struct Tokenizer<'a> {
    content: &'a str,
    len: usize,
    head: usize,
}

impl<'a> Tokenizer<'a> {
    /// What holds of every tokenizer; [`Tokenizer::lemma_cursor_in_buffer`]
    /// says what follows from it.
    #[verifier::type_invariant]
    pub closed spec fn well_formed(self) -> bool {
        self.len == self.content@.len() && self.head <= self.len
    }

    /// The characters of the buffer.
    pub closed spec fn content(&self) -> Seq<char> {
        self.content@
    }

    /// The offset of the next character to be read.
    pub closed spec fn cursor(&self) -> int {
        self.head as int
    }

    /// The cursor of a tokenizer lies in its buffer.
    pub proof fn lemma_cursor_in_buffer(self)
        requires
            self.well_formed(),
        ensures
            0 <= self.cursor() <= self.content().len(),
    {
    }

    /// A tokenizer over `content`, with its cursor at the start.
    pub fn new(content: &'a str) -> (tokenizer: Self)
        ensures
            tokenizer.content() == content@,
            tokenizer.cursor() == 0,
    {
        Tokenizer { content, len: content.unicode_len(), head: 0usize }
    }

    /// The offset of the next character to be read. It never passes the end
    /// of the buffer.
    pub fn position(&self) -> (at: usize)
        ensures
            at == self.cursor(),
            at <= self.content().len(),
    {
        proof {
            use_type_invariant(self);
        }
        self.head
    }

    /// Reads the next token and moves the cursor behind it.
    ///
    /// The token is the one that [`token_at`] describes. At the end of the
    /// input every call returns the end-of-input token again.
    pub fn next_token(&mut self) -> (token: Token<'a>)
        ensures
            final(self).content() == old(self).content(),
            token@ == token_at(old(self).content(), old(self).cursor()),
            token.kind.borrowed(),
            final(self).cursor() == token@.end(),
            0 <= old(self).cursor() <= final(self).cursor() <= old(self).content().len(),
            !(token.kind is Eof) ==> old(self).cursor() < final(self).cursor(),
    {
        proof {
            use_type_invariant(&*self);
            lemma_token_at(self.content@, self.head as int);
        }
        let content = self.content;
        let len = self.len;
        let mut start = self.head;
        while start < len && char_is_whitespace(content.get_char(start))
            invariant
                self.head <= start <= len,
                len == content@.len(),
                skip_whitespace(content@, start as int) == skip_whitespace(
                    content@,
                    self.head as int,
                ),
            decreases len - start,
        {
            start = start + 1;
        }
        if start >= len {
            self.head = len;
            return Token::eof(len);
        }
        let first = content.get_char(start);
        match TokenKind::try_from(first) {
            Ok(kind) => {
                self.head = start + 1;
                return Token::single(start, kind);
            },
            Err(_) => {},
        }
        let mut end = start + 1;
        while end < len && char_is_text(content.get_char(end))
            invariant
                start < end <= len,
                len == content@.len(),
                text_end(content@, end as int) == text_end(content@, start as int),
            decreases len - end,
        {
            end = end + 1;
        }
        self.head = end;
        Token::new(
            start,
            end - start,
            TokenKind::Text(Cow::Borrowed(content.substring_char(start, end))),
        )
    }

    /// Reads the next token, as [`Tokenizer::next_token`] does, and hands it
    /// out unless it is the end of the input.
    pub fn next(&mut self) -> (r: Option<Token<'a>>)
        ensures
            final(self).content() == old(self).content(),
            final(self).cursor() == token_at(old(self).content(), old(self).cursor()).end(),
            match r {
                Some(token) => token@ == token_at(old(self).content(), old(self).cursor()) && !(
                token@.kind is Eof) && token.kind.borrowed(),
                None => token_at(old(self).content(), old(self).cursor()).kind is Eof,
            },
    {
        let token = self.next_token();
        match token.kind {
            TokenKind::Eof => None,
            _ => Some(token),
        }
    }

    /// Whether the character at the cursor is whitespace. Nothing is
    /// consumed. At the end of the buffer the answer is no.
    pub fn has_spaces(&self) -> (r: bool)
        ensures
            r == at_whitespace(self.content(), self.cursor()),
    {
        proof {
            use_type_invariant(self);
        }
        self.head < self.len && char_is_whitespace(self.content.get_char(self.head))
    }

    /// The part of the buffer that `token` spans.
    pub fn token_to_str(&self, token: &Token) -> (text: &'a str)
        requires
            token.start + token.len <= self.content().len(),
        ensures
            text@ == self.content().subrange(token.start as int, token.start + token.len),
    {
        proof {
            use_type_invariant(self);
        }
        self.content.substring_char(token.start, token.start + token.len)
    }

    /// Whether the part of the buffer that `token` spans is blank: empty, or
    /// whitespace only.
    pub fn token_to_str_empty(&self, token: &Token) -> (r: bool)
        requires
            token.start + token.len <= self.content().len(),
        ensures
            r == is_blank(self.content().subrange(token.start as int, token.start + token.len)),
    {
        proof {
            use_type_invariant(self);
        }
        let end = token.start + token.len;
        let ghost span = self.content@.subrange(token.start as int, end as int);
        let mut i = token.start;
        while i < end
            invariant
                token.start <= i <= end <= self.content@.len(),
                end == token.start + token.len,
                span == self.content().subrange(token.start as int, end as int),
                forall|j: int| 0 <= j < i - token.start ==> is_whitespace(#[trigger] span[j]),
            decreases end - i,
        {
            if !char_is_whitespace(self.content.get_char(i)) {
                proof {
                    assert(!is_whitespace(span[i - token.start]));
                }
                return false;
            }
            i = i + 1;
        }
        true
    }

    /// The part of the buffer that `token` spans, as a text element.
    pub fn token_to_text_element(&self, token: &Token) -> (element: Element<'a>)
        requires
            token.start + token.len <= self.content().len(),
        ensures
            element@ == ElementView::Text(
                self.content().subrange(token.start as int, token.start + token.len),
            ),
            element.borrowed(),
    {
        Element::text(self.token_to_str(token))
    }
}

} // verus!
