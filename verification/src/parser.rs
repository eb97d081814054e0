//! The parser: it pulls tokens and groups them into tags and text runs.

use crate::chars::{is_blank, is_whitespace};
use crate::element::{Attributes, Element, ElementView, UnstructuredSequence};
use crate::error::ParseError;
use crate::stream::{
    lemma_without_whitespace_drops, lemma_without_whitespace_keeps, without_whitespace,
};
use crate::strings::{cow_str, str_eq};
use crate::token::{lemma_token_at, token_at, at_whitespace, TokenKind, TokenKindView, Tokenizer};
use vstd::prelude::*;

verus! {

/// The two characters that open and close a comment.
pub open spec fn dashes() -> Seq<char> {
    seq!['-', '-']
}

/// Where reading a comment's content ends.
///
/// `cursor` stands behind the `<!--` that opened the comment, or further
/// inside it; `closing` says whether the token read last was `--`. Tokens are
/// passed over one by one. The comment ends behind the first `>` that
/// follows a `--` token directly, or at the end of the input.
pub open spec fn comment_end(content: Seq<char>, cursor: int, closing: bool) -> int
    decreases content.len() - cursor,
    when 0 <= cursor <= content.len()
    via comment_end_decreases
{
    let token = token_at(content, cursor);
    if token.kind is Eof || (closing && token.kind is RAngle) {
        token.end()
    } else {
        comment_end(content, token.end(), token.kind == TokenKindView::Text(dashes()))
    }
}

#[via_fn]
proof fn comment_end_decreases(content: Seq<char>, cursor: int, closing: bool) {
    lemma_token_at(content, cursor);
}

/// The outcome of reading the attributes of a tag: the map, or nothing where
/// the tokens broke the grammar, and the cursor behind the last token read.
pub struct AttributesScan {
    pub attrs: Option<Map<Seq<char>, Seq<char>>>,
    pub cursor: int,
}

/// Reads attributes from `cursor` up to the end of the tag and adds them to
/// `attrs`.
///
/// `>` ends the tag, and so does `/` with `>` directly behind it. Anything
/// else has to be a key, `=` and a value, three tokens in this order; the
/// value is written under the key, over any value that stood there. With the
/// first token that does not fit, reading stops without a map; that token is
/// consumed.
pub open spec fn attributes_from(
    content: Seq<char>,
    cursor: int,
    attrs: Map<Seq<char>, Seq<char>>,
) -> AttributesScan
    decreases content.len() - cursor,
    when 0 <= cursor <= content.len()
    via attributes_from_decreases
{
    let first = token_at(content, cursor);
    match first.kind {
        TokenKindView::RAngle => AttributesScan { attrs: Some(attrs), cursor: first.end() },
        TokenKindView::Backslash => {
            let second = token_at(content, first.end());
            AttributesScan {
                attrs: if second.kind is RAngle {
                    Some(attrs)
                } else {
                    None
                },
                cursor: second.end(),
            }
        },
        TokenKindView::Text(key) => {
            let second = token_at(content, first.end());
            if second.kind is Equals {
                let third = token_at(content, second.end());
                match third.kind {
                    TokenKindView::Text(value) => attributes_from(
                        content,
                        third.end(),
                        attrs.insert(key, value),
                    ),
                    _ => AttributesScan { attrs: None, cursor: third.end() },
                }
            } else {
                AttributesScan { attrs: None, cursor: second.end() }
            }
        },
        _ => AttributesScan { attrs: None, cursor: first.end() },
    }
}

#[via_fn]
proof fn attributes_from_decreases(
    content: Seq<char>,
    cursor: int,
    attrs: Map<Seq<char>, Seq<char>>,
) {
    lemma_token_at(content, cursor);
    let first = token_at(content, cursor);
    lemma_token_at(content, first.end());
    let second = token_at(content, first.end());
    lemma_token_at(content, second.end());
}

/// The outcome of reading one tag: an element, nothing for a comment, or the
/// error for tokens that broke the grammar; and the cursor behind the last
/// token read.
pub struct TagScan {
    pub result: Result<Option<ElementView>, ParseError>,
    pub cursor: int,
}

/// Reads the attributes behind the identifier `ident` and, where they are in
/// order, makes the tag.
pub open spec fn tag_with_ident(content: Seq<char>, cursor: int, ident: Seq<char>) -> TagScan {
    let scan = attributes_from(content, cursor, Map::empty());
    TagScan {
        result: match scan.attrs {
            Some(attrs) => Ok(Some(ElementView::Tag { ident, attrs })),
            None => Err(ParseError::Unexpected),
        },
        cursor: scan.cursor,
    }
}

/// Reads one tag; `cursor` stands directly behind its `<`.
///
/// Where whitespace follows the `<`, this is no tag: the `<` is text, and
/// nothing more is consumed. Otherwise the identifier is a text run, or a
/// text run behind one `!` or one `/`. Behind `!` the text run `--` opens a
/// comment instead, which is read to its end and gives no element. The
/// attributes follow the identifier.
pub open spec fn tag_at(content: Seq<char>, cursor: int) -> TagScan {
    if at_whitespace(content, cursor) {
        TagScan { result: Ok(Some(ElementView::Text(seq!['<']))), cursor }
    } else {
        let first = token_at(content, cursor);
        match first.kind {
            TokenKindView::Text(ident) => tag_with_ident(content, first.end(), ident),
            TokenKindView::Exclamation => {
                let second = token_at(content, first.end());
                match second.kind {
                    TokenKindView::Text(ident) => if ident == dashes() {
                        TagScan {
                            result: Ok(None),
                            cursor: comment_end(content, second.end(), false),
                        }
                    } else {
                        tag_with_ident(content, second.end(), ident)
                    },
                    _ => TagScan { result: Err(ParseError::Unexpected), cursor: second.end() },
                }
            },
            TokenKindView::Backslash => {
                let second = token_at(content, first.end());
                match second.kind {
                    TokenKindView::Text(ident) => tag_with_ident(content, second.end(), ident),
                    _ => TagScan { result: Err(ParseError::Unexpected), cursor: second.end() },
                }
            },
            _ => TagScan { result: Err(ParseError::Unexpected), cursor: first.end() },
        }
    }
}

/// A tag fails in one way only: with [`ParseError::Unexpected`].
pub proof fn lemma_tag_fails_as_unexpected(content: Seq<char>, cursor: int)
    ensures
        tag_at(content, cursor).result is Err ==> tag_at(content, cursor).result == Err::<
            Option<ElementView>,
            ParseError,
        >(ParseError::Unexpected),
{
}

/// Reading a comment moves the cursor forward and keeps it in the buffer.
pub proof fn lemma_comment_end_bounds(content: Seq<char>, cursor: int, closing: bool)
    requires
        0 <= cursor <= content.len(),
    ensures
        cursor <= comment_end(content, cursor, closing) <= content.len(),
    decreases content.len() - cursor,
{
    lemma_token_at(content, cursor);
    let token = token_at(content, cursor);
    if !(token.kind is Eof || (closing && token.kind is RAngle)) {
        lemma_comment_end_bounds(
            content,
            token.end(),
            token.kind == TokenKindView::Text(dashes()),
        );
    }
}

/// Reading attributes moves the cursor forward and keeps it in the buffer.
pub proof fn lemma_attributes_from_bounds(
    content: Seq<char>,
    cursor: int,
    attrs: Map<Seq<char>, Seq<char>>,
)
    requires
        0 <= cursor <= content.len(),
    ensures
        cursor <= attributes_from(content, cursor, attrs).cursor <= content.len(),
    decreases content.len() - cursor,
{
    lemma_token_at(content, cursor);
    let first = token_at(content, cursor);
    lemma_token_at(content, first.end());
    let second = token_at(content, first.end());
    lemma_token_at(content, second.end());
    let third = token_at(content, second.end());
    if first.kind is Text && second.kind is Equals && third.kind is Text {
        lemma_attributes_from_bounds(
            content,
            third.end(),
            attrs.insert(first.kind->Text_0, third.kind->Text_0),
        );
    }
}

/// Reading a tag moves the cursor forward and keeps it in the buffer.
pub proof fn lemma_tag_at_bounds(content: Seq<char>, cursor: int)
    requires
        0 <= cursor <= content.len(),
    ensures
        cursor <= tag_at(content, cursor).cursor <= content.len(),
{
    lemma_token_at(content, cursor);
    let first = token_at(content, cursor);
    lemma_token_at(content, first.end());
    let second = token_at(content, first.end());
    lemma_attributes_from_bounds(content, first.end(), Map::empty());
    lemma_attributes_from_bounds(content, second.end(), Map::empty());
    lemma_comment_end_bounds(content, second.end(), false);
}

/// The elements that parsing finds from `cursor` to the end of `content`.
///
/// Tokens are read one by one up to the end of the input. `<` opens a tag,
/// which is read as [`tag_at`] says; it gives its element, or none where it
/// is a comment or breaks the grammar, and reading goes on behind what the
/// tag consumed. Every other token becomes a text element that holds its
/// part of the buffer as it stands, unless that part is blank.
pub open spec fn elements_from(content: Seq<char>, cursor: int) -> Seq<ElementView>
    decreases content.len() - cursor,
    when 0 <= cursor <= content.len()
    via elements_from_decreases
{
    let token = token_at(content, cursor);
    match token.kind {
        TokenKindView::Eof => Seq::empty(),
        TokenKindView::LAngle => {
            let tag = tag_at(content, token.end());
            match tag.result {
                Ok(Some(element)) => seq![element] + elements_from(content, tag.cursor),
                _ => elements_from(content, tag.cursor),
            }
        },
        _ => {
            let span = content.subrange(token.start, token.end());
            if is_blank(span) {
                elements_from(content, token.end())
            } else {
                seq![ElementView::Text(span)] + elements_from(content, token.end())
            }
        },
    }
}

#[via_fn]
proof fn elements_from_decreases(content: Seq<char>, cursor: int) {
    lemma_token_at(content, cursor);
    lemma_tag_at_bounds(content, token_at(content, cursor).end());
}

/// A token outside of a tag is never dropped: but for `<` and the end of the
/// input, every token becomes a text element that holds the token's
/// characters, since no token of the tokenizer is blank.
pub proof fn lemma_elements_from_text(content: Seq<char>, cursor: int)
    requires
        0 <= cursor <= content.len(),
        !(token_at(content, cursor).kind is Eof),
        !(token_at(content, cursor).kind is LAngle),
    ensures
        elements_from(content, cursor) == seq![
            ElementView::Text(token_at(content, cursor).kind.lexeme()),
        ] + elements_from(content, token_at(content, cursor).end()),
{
    lemma_token_at(content, cursor);
    let token = token_at(content, cursor);
    let span = content.subrange(token.start, token.end());
    assert(span[0] == content[token.start]);
}

/// The characters of the text elements among `elements`, one element after
/// the other; a tag adds nothing.
pub open spec fn texts(elements: Seq<ElementView>) -> Seq<char>
    decreases elements.len(),
{
    if elements.len() == 0 {
        Seq::empty()
    } else {
        let first = match elements[0] {
            ElementView::Text(text) => text,
            ElementView::Tag { .. } => Seq::empty(),
        };
        first + texts(elements.drop_first())
    }
}

/// Outside of tags parsing loses no character but whitespace: where no `<`
/// is left in the buffer, every element is text, and the texts, one after
/// the other, are the rest of the buffer without its whitespace.
pub proof fn lemma_text_is_kept(content: Seq<char>, cursor: int)
    requires
        0 <= cursor <= content.len(),
        forall|i: int| cursor <= i < content.len() ==> (#[trigger] content[i]) != '<',
    ensures
        forall|i: int|
            0 <= i < elements_from(content, cursor).len() ==> #[trigger] elements_from(
                content,
                cursor,
            )[i] is Text,
        texts(elements_from(content, cursor)) == without_whitespace(
            content.subrange(cursor, content.len() as int),
        ),
    decreases content.len() - cursor,
{
    lemma_token_at(content, cursor);
    let token = token_at(content, cursor);
    let gap = content.subrange(cursor, token.start);
    let keep = |c: char| !is_whitespace(c);
    if token.kind is Eof {
        lemma_without_whitespace_drops(gap);
    } else {
        lemma_elements_from_text(content, cursor);
        lemma_text_is_kept(content, token.end());
        let rest = elements_from(content, token.end());
        let all = elements_from(content, cursor);
        assert(all.drop_first() =~= rest);
        assert forall|i: int| 0 <= i < all.len() implies #[trigger] all[i] is Text by {
            if i > 0 {
                assert(all[i] == rest[i - 1]);
            }
        }
        let span = content.subrange(token.start, token.end());
        let tail = content.subrange(token.end(), content.len() as int);
        assert(content.subrange(cursor, content.len() as int) =~= gap + span + tail);
        Seq::filter_distributes_over_add(gap + span, tail, keep);
        Seq::filter_distributes_over_add(gap, span, keep);
        lemma_without_whitespace_drops(gap);
        assert forall|i: int| 0 <= i < span.len() implies !is_whitespace(#[trigger] span[i]) by {
            assert(span[i] == token.kind.lexeme()[i]);
        }
        lemma_without_whitespace_keeps(span);
    }
}

/// The value of what reading one tag hands out.
pub open spec fn tag_result_view<'a>(r: Result<Option<Element<'a>>, ParseError>) -> Result<
    Option<ElementView>,
    ParseError,
> {
    match r {
        Ok(Some(element)) => Ok(Some(element@)),
        Ok(None) => Ok(None),
        Err(e) => Err(e),
    }
}

/// The value of what reading the attributes of a tag hands out.
pub open spec fn attributes_result_view<'a>(r: Result<Attributes<'a>, ParseError>) -> Option<
    Map<Seq<char>, Seq<char>>,
> {
    match r {
        Ok(attrs) => Some(attrs@),
        Err(_) => None,
    }
}

/// The unstructured parser.
///
/// It builds no tree and does not hold the input to any rule of
/// well-formedness; parsing never fails. A tag that breaks the grammar is
/// dropped together with the tokens that were read for it, and parsing goes
/// on behind them. This holds at the end of the input too: a tag or a comment
/// that the input leaves open is dropped, and the elements found before it
/// stay.
pub struct Parser<'a> {
    tokenizer: Tokenizer<'a>,
}

impl<'a> Parser<'a> {
    /// The characters of the buffer.
    pub closed spec fn content(&self) -> Seq<char> {
        self.tokenizer.content()
    }

    /// The offset of the next character to be read.
    pub closed spec fn cursor(&self) -> int {
        self.tokenizer.cursor()
    }

    /// A parser over `content`, with its cursor at the start.
    pub fn new(content: &'a str) -> (parser: Self)
        ensures
            parser.content() == content@,
            parser.cursor() == 0,
    {
        Parser { tokenizer: Tokenizer::new(content) }
    }

    /// The offset of the next character to be read. It never passes the end
    /// of the buffer.
    pub fn position(&self) -> (at: usize)
        ensures
            at == self.cursor(),
            at <= self.content().len(),
    {
        self.tokenizer.position()
    }

    /// Parses what is left of the buffer and returns the elements in their
    /// order. The cursor ends at the end of the buffer, so a second call
    /// finds nothing.
    pub fn parse(&mut self) -> (sequence: UnstructuredSequence<'a>)
        ensures
            final(self).content() == old(self).content(),
            0 <= old(self).cursor() <= old(self).content().len(),
            final(self).cursor() == old(self).content().len(),
            sequence@ == elements_from(old(self).content(), old(self).cursor()),
            sequence.borrowed(),
    {
        let mut sequence = UnstructuredSequence::default();
        let ghost content = self.content();
        let ghost start = self.cursor();
        proof {
            use_type_invariant(&self.tokenizer);
            self.tokenizer.lemma_cursor_in_buffer();
        }
        loop
            invariant
                self.content() == content,
                content == old(self).content(),
                start == old(self).cursor(),
                0 <= start <= self.cursor() <= content.len(),
                sequence@ + elements_from(content, self.cursor()) == elements_from(content, start),
                sequence.borrowed(),
            decreases content.len() - self.cursor(),
        {
            let ghost before = self.cursor();
            let ghost found = sequence@;
            proof {
                lemma_token_at(content, before);
            }
            let token = self.tokenizer.next_token();
            match token.kind {
                TokenKind::Eof => {
                    return sequence;
                },
                TokenKind::LAngle => {
                    proof {
                        lemma_tag_at_bounds(content, token@.end());
                    }
                    let ghost tag = tag_at(content, token@.end());
                    match self.parse_tag() {
                        Ok(Some(element)) => {
                            sequence.push(element);
                            proof {
                                assert(found.push(element@) + elements_from(content, tag.cursor)
                                    =~= found + (seq![element@] + elements_from(
                                    content,
                                    tag.cursor,
                                )));
                            }
                        },
                        _ => {},
                    }
                },
                TokenKind::Text(text) => {
                    let ghost run = text@;
                    sequence.push(Element::Text(text));
                    proof {
                        lemma_elements_from_text(content, before);
                        assert(found.push(ElementView::Text(run)) + elements_from(
                            content,
                            token@.end(),
                        ) =~= found + (seq![ElementView::Text(run)] + elements_from(
                            content,
                            token@.end(),
                        )));
                    }
                },
                _ => {
                    let ghost span = content.subrange(token@.start, token@.end());
                    sequence.push(self.tokenizer.token_to_text_element(&token));
                    proof {
                        lemma_elements_from_text(content, before);
                        assert(found.push(ElementView::Text(span)) + elements_from(
                            content,
                            token@.end(),
                        ) =~= found + (seq![ElementView::Text(span)] + elements_from(
                            content,
                            token@.end(),
                        )));
                    }
                },
            }
        }
    }

    /// Reads one tag; the `<` that opens it has just been consumed.
    ///
    /// Returns the tag, or the text `<` where whitespace follows the `<`, or
    /// nothing for a comment, or [`ParseError::Unexpected`] where the tokens
    /// break the grammar. [`tag_at`] says which, and how far the cursor
    /// moves.
    pub fn parse_tag(&mut self) -> (r: Result<Option<Element<'a>>, ParseError>)
        ensures
            final(self).content() == old(self).content(),
            tag_result_view(r) == tag_at(old(self).content(), old(self).cursor()).result,
            r matches Ok(Some(element)) ==> element.borrowed(),
            final(self).cursor() == tag_at(old(self).content(), old(self).cursor()).cursor,
            0 <= old(self).cursor() <= final(self).cursor() <= old(self).content().len(),
    {
        let ghost content = self.content();
        let ghost start = self.cursor();
        proof {
            use_type_invariant(&self.tokenizer);
            self.tokenizer.lemma_cursor_in_buffer();
            lemma_tag_at_bounds(content, start);
            reveal_strlit("<");
            reveal_strlit("--");
            assert("<"@ =~= seq!['<']);
            assert("--"@ =~= dashes());
        }
        if self.tokenizer.has_spaces() {
            return Ok(Some(Element::text("<")));
        }
        let ident = match self.tokenizer.next_token().kind {
            TokenKind::Text(ident) => ident,
            TokenKind::Exclamation => match self.tokenizer.next_token().kind {
                TokenKind::Text(ident) => {
                    if str_eq(cow_str(&ident), "--") {
                        self.skip_comment();
                        return Ok(None);
                    }
                    ident
                },
                _ => {
                    return Err(ParseError::Unexpected);
                },
            },
            TokenKind::Backslash => match self.tokenizer.next_token().kind {
                TokenKind::Text(ident) => ident,
                _ => {
                    return Err(ParseError::Unexpected);
                },
            },
            _ => {
                return Err(ParseError::Unexpected);
            },
        };
        match self.parse_attributes() {
            Ok(attrs) => Ok(Some(Element::Tag { ident, attrs })),
            Err(e) => Err(e),
        }
    }

    /// Reads the attributes of a tag up to its end; the identifier has just
    /// been consumed.
    ///
    /// Returns the attributes, or [`ParseError::Unexpected`] with the first
    /// token that is neither the end of the tag nor part of a key, `=` and a
    /// value. [`attributes_from`] says which, and how far the cursor moves.
    pub fn parse_attributes(&mut self) -> (r: Result<Attributes<'a>, ParseError>)
        ensures
            final(self).content() == old(self).content(),
            attributes_result_view(r) == attributes_from(
                old(self).content(),
                old(self).cursor(),
                Map::empty(),
            ).attrs,
            r is Err ==> r == Err::<Attributes<'a>, ParseError>(ParseError::Unexpected),
            r matches Ok(attrs) ==> attrs.borrowed(),
            final(self).cursor() == attributes_from(
                old(self).content(),
                old(self).cursor(),
                Map::empty(),
            ).cursor,
            0 <= old(self).cursor() <= final(self).cursor() <= old(self).content().len(),
    {
        let ghost content = self.content();
        let ghost start = self.cursor();
        proof {
            use_type_invariant(&self.tokenizer);
            self.tokenizer.lemma_cursor_in_buffer();
            lemma_attributes_from_bounds(content, start, Map::empty());
        }
        let mut attrs = Attributes::new();
        loop
            invariant
                self.content() == content,
                content == old(self).content(),
                start == old(self).cursor(),
                0 <= start <= self.cursor() <= content.len(),
                attributes_from(content, self.cursor(), attrs@) == attributes_from(
                    content,
                    start,
                    Map::empty(),
                ),
                attrs.borrowed(),
            decreases content.len() - self.cursor(),
        {
            match self.tokenizer.next_token().kind {
                TokenKind::RAngle => {
                    return Ok(attrs);
                },
                TokenKind::Backslash => {
                    return match self.tokenizer.next_token().kind {
                        TokenKind::RAngle => Ok(attrs),
                        _ => Err(ParseError::Unexpected),
                    };
                },
                TokenKind::Text(key) => {
                    match self.tokenizer.next_token().kind {
                        TokenKind::Equals => {},
                        _ => {
                            return Err(ParseError::Unexpected);
                        },
                    }
                    match self.tokenizer.next_token().kind {
                        TokenKind::Text(value) => {
                            attrs.insert(key, value);
                        },
                        _ => {
                            return Err(ParseError::Unexpected);
                        },
                    }
                },
                _ => {
                    return Err(ParseError::Unexpected);
                },
            }
        }
    }

    /// Passes over the content of a comment; the `<!--` that opens it has
    /// just been consumed.
    ///
    /// The cursor ends behind the `>` that closes the comment, or at the end
    /// of the buffer where the comment is left open. [`comment_end`] says
    /// where.
    pub fn skip_comment(&mut self)
        ensures
            final(self).content() == old(self).content(),
            final(self).cursor() == comment_end(old(self).content(), old(self).cursor(), false),
            0 <= old(self).cursor() <= final(self).cursor() <= old(self).content().len(),
    {
        let ghost content = self.content();
        let ghost start = self.cursor();
        proof {
            use_type_invariant(&self.tokenizer);
            self.tokenizer.lemma_cursor_in_buffer();
            lemma_comment_end_bounds(content, start, false);
            reveal_strlit("--");
        }
        let mut closing = false;
        loop
            invariant
                self.content() == content,
                content == old(self).content(),
                start == old(self).cursor(),
                0 <= start <= self.cursor() <= content.len(),
                comment_end(content, self.cursor(), closing) == comment_end(content, start, false),
                "--"@ == dashes(),
            decreases content.len() - self.cursor(),
        {
            match self.tokenizer.next_token().kind {
                TokenKind::Eof => {
                    return ;
                },
                TokenKind::RAngle => {
                    if closing {
                        return ;
                    }
                    closing = false;
                },
                TokenKind::Text(text) => {
                    closing = str_eq(cow_str(&text), "--");
                },
                _ => {
                    closing = false;
                },
            }
        }
    }
}

} // verus!
