use std::borrow::Cow;

use s_html_parser::element::{Attributes, Element, UnstructuredSequence};
use s_html_parser::error::ParseError;
use s_html_parser::parser::Parser;

fn parse(text: &str) -> Vec<Element<'_>> {
    let mut parser = Parser::new(text);
    let sequence: UnstructuredSequence = parser.parse();
    sequence.into_iter().collect()
}

fn attrs(pairs: &[(&str, &str)]) -> Attributes<'static> {
    let mut attrs = Attributes::new();
    for (key, value) in pairs {
        attrs.insert(key.to_string().into(), value.to_string().into());
    }
    attrs
}

#[test]
fn parser_ignores_comment() {
    let mut parser = Parser::new("<p>Text <!-- Hello -->  !");
    let sequence = parser.parse();

    assert_eq!(sequence[0], Element::tag("p", Attributes::new()));
    assert_eq!(sequence[1], Element::text("Text"));
    assert_eq!(sequence[2], Element::text("!"));
}

#[test]
fn parser_unclosed_tag() {
    let mut parser = Parser::new("<pText   !");
    let sequence = parser.parse();
    assert!(sequence.is_empty());
}

#[test]
fn parser_non_tag_as_text() {
    let mut parser = Parser::new("< untag");
    let sequence = parser.parse();
    assert_eq!(sequence[0], Element::text("<"));
    assert_eq!(sequence[1], Element::text("untag"));
}

#[test]
fn lone_angle_and_the_text_behind_it_are_two_elements() {
    assert_eq!(parse("< untag"), vec![Element::text("<"), Element::text("untag")]);
    assert_eq!(parse("a <\tb"), vec![Element::text("a"), Element::text("<"), Element::text("b")]);
    assert_eq!(parse("< "), vec![Element::text("<")]);
}

#[test]
fn paragraph_with_closing_tag() {
    let mut parser = Parser::new("<p> Hello! </p>");
    let seq: UnstructuredSequence = parser.parse();

    assert_eq!(seq[0], Element::tag("p", Attributes::new()));
    assert_eq!(seq[1], Element::text("Hello"));
    assert_eq!(seq[2], Element::text("!"));
    assert_eq!(seq[3], Element::tag("p", Attributes::new()));
    assert!(seq.get(4).is_none());
}

#[test]
fn tag_then_text_and_punctuation() {
    assert_eq!(
        parse("<p>Text!"),
        vec![Element::no_attrs("p"), Element::text("Text"), Element::text("!")]
    );
}

#[test]
fn comment_leaves_nothing_behind() {
    assert_eq!(
        parse("<p>Text <!-- Hello --> !"),
        vec![Element::no_attrs("p"), Element::text("Text"), Element::text("!")]
    );
    assert_eq!(parse("<!-- a <b c=d> e -->x"), vec![Element::text("x")]);
    assert_eq!(parse("<!-- -->"), vec![]);
}

#[test]
fn comment_ends_with_dashes_directly_before_the_angle() {
    // `--` and `>` with other tokens between them do not end the comment
    assert_eq!(parse("<!-- a -- b > c --> d"), vec![Element::text("d")]);
    // the second `--` is the one that stands directly before `>`
    assert_eq!(parse("<!-- a -- -- > d"), vec![Element::text("d")]);
    // whitespace between the two tokens does not count
    assert_eq!(parse("<!-- a -- > d"), vec![Element::text("d")]);
    // the `--` that opens the comment does not close it
    assert_eq!(parse("<!-- > a --> b"), vec![Element::text("b")]);
    // dashes inside a longer text run are no `--` token
    assert_eq!(parse("<!-- a--> b --> c"), vec![Element::text("c")]);
}

#[test]
fn comment_left_open_runs_to_the_end() {
    assert_eq!(parse("a <!-- b c"), vec![Element::text("a")]);
    assert_eq!(parse("<i> <!--"), vec![Element::no_attrs("i")]);
    assert_eq!(parse("<i> <!-- x --"), vec![Element::no_attrs("i")]);
}

#[test]
fn dashes_glued_to_text_are_an_identifier() {
    assert_eq!(parse("<!--x>"), vec![Element::no_attrs("--x")]);
    assert_eq!(parse("<!DOCTYPE>"), vec![Element::no_attrs("DOCTYPE")]);
}

#[test]
fn unclosed_tag_is_dropped_alone() {
    assert_eq!(parse("<pText!"), vec![]);
    assert_eq!(parse("<p"), vec![]);
    assert_eq!(parse("<p a=b"), vec![]);
    assert_eq!(parse("<"), vec![]);
    // what was found before the open tag stays
    assert_eq!(parse("Hello <pText!"), vec![Element::text("Hello")]);
    assert_eq!(
        parse("<a>b<c d=e"),
        vec![Element::no_attrs("a"), Element::text("b")]
    );
}

#[test]
fn duplicate_attribute_keeps_the_last_value() {
    let elements = parse("<a x=1 x=2>");
    assert_eq!(elements, vec![Element::tag("a", attrs(&[("x", "2")]))]);
    match &elements[0] {
        Element::Tag { ident, attrs } => {
            assert_eq!(ident, "a");
            assert_eq!(attrs.len(), 1);
            assert_eq!(attrs.get("x"), Some("2"));
        }
        Element::Text(_) => panic!("a tag was expected"),
    }
}

#[test]
fn attributes_are_collected() {
    assert_eq!(
        parse("<img src=a.png alt=picture width=3>"),
        vec![Element::tag("img", attrs(&[("src", "a.png"), ("alt", "picture"), ("width", "3")]))]
    );
    assert_eq!(
        parse("<a  href = x\n id\t=\ty >"),
        vec![Element::tag("a", attrs(&[("id", "y"), ("href", "x")]))]
    );
}

#[test]
fn self_closing_tag_is_a_tag() {
    assert_eq!(parse("<br/>"), vec![Element::no_attrs("br")]);
    assert_eq!(parse("<br />"), vec![Element::no_attrs("br")]);
    assert_eq!(parse("<hr a=b/>x"), vec![Element::tag("hr", attrs(&[("a", "b")])), Element::text("x")]);
}

#[test]
fn closing_tag_is_a_tag() {
    assert_eq!(parse("</p>"), vec![Element::no_attrs("p")]);
    assert_eq!(parse("</ p >"), vec![Element::no_attrs("p")]);
}

#[test]
fn malformed_tag_is_dropped_with_what_it_consumed() {
    // the slash wants `>` behind it: `b` is consumed with the tag, `>` is text
    assert_eq!(parse("<a /b>c"), vec![Element::text(">"), Element::text("c")]);
    // a key wants `=` behind it: the tag ends at the `>` that stands there
    assert_eq!(parse("<a b>c"), vec![Element::text("c")]);
    // `=` wants a value behind it
    assert_eq!(parse("<a b=>c"), vec![Element::text("c")]);
    // no identifier
    assert_eq!(parse("<>c"), vec![Element::text("c")]);
    assert_eq!(parse("<=a>"), vec![Element::text("a"), Element::text(">")]);
    assert_eq!(parse("<!>a"), vec![Element::text("a")]);
    assert_eq!(parse("<//a>"), vec![Element::text("a"), Element::text(">")]);
    // a tag inside a tag
    assert_eq!(parse("<a <b>"), vec![Element::text("b"), Element::text(">")]);
}

#[test]
fn punctuation_outside_of_tags_is_text() {
    assert_eq!(
        parse("a = b / c ! >"),
        vec![
            Element::text("a"),
            Element::text("="),
            Element::text("b"),
            Element::text("/"),
            Element::text("c"),
            Element::text("!"),
            Element::text(">"),
        ]
    );
}

#[test]
fn empty_and_blank_input_give_nothing() {
    assert_eq!(parse(""), vec![]);
    assert_eq!(parse("  \n\t "), vec![]);
}

#[test]
fn text_is_split_at_whitespace() {
    assert_eq!(
        parse("  one two\u{a0}three  "),
        vec![Element::text("one"), Element::text("two"), Element::text("three")]
    );
}

#[test]
fn second_parse_finds_nothing() {
    let mut parser = Parser::new("<a>b");
    assert_eq!(parser.parse().len(), 2);
    assert!(parser.parse().is_empty());
}

#[test]
fn parse_tag_reads_one_tag() {
    // the parser stands where the tokenizer would after `<`
    let mut parser = Parser::new("a b=c>d");
    assert_eq!(parser.parse_tag(), Ok(Some(Element::tag("a", attrs(&[("b", "c")])))));
    assert_eq!(parse_rest(&mut parser), vec![Element::text("d")]);
}

fn parse_rest<'a>(parser: &mut Parser<'a>) -> Vec<Element<'a>> {
    parser.parse().into_iter().collect()
}

#[test]
fn parse_tag_tells_what_went_wrong() {
    assert_eq!(Parser::new(">").parse_tag(), Err(ParseError::Unexpected));
    assert_eq!(Parser::new("").parse_tag(), Err(ParseError::Unexpected));
    assert_eq!(Parser::new("=a>").parse_tag(), Err(ParseError::Unexpected));
    assert_eq!(Parser::new("a b>").parse_tag(), Err(ParseError::Unexpected));
    assert_eq!(Parser::new("a b=>").parse_tag(), Err(ParseError::Unexpected));
    assert_eq!(Parser::new("a /b").parse_tag(), Err(ParseError::Unexpected));
    assert_eq!(Parser::new("a b=c").parse_tag(), Err(ParseError::Unexpected));
    assert_eq!(Parser::new("!=").parse_tag(), Err(ParseError::Unexpected));
    assert_eq!(Parser::new("/>").parse_tag(), Err(ParseError::Unexpected));
}

#[test]
fn parse_tag_gives_no_element_for_a_comment() {
    let mut parser = Parser::new("!-- x --> y");
    assert_eq!(parser.parse_tag(), Ok(None));
    assert_eq!(parse_rest(&mut parser), vec![Element::text("y")]);
}

#[test]
fn parse_tag_behind_whitespace_is_the_angle_as_text() {
    let mut parser = Parser::new(" a>");
    assert_eq!(parser.parse_tag(), Ok(Some(Element::text("<"))));
    // nothing was consumed
    assert_eq!(parse_rest(&mut parser), vec![Element::text("a"), Element::text(">")]);
}

#[test]
fn parse_attributes_reads_up_to_the_end_of_the_tag() {
    let mut parser = Parser::new(" k=v k2=v2 > rest");
    assert_eq!(parser.parse_attributes(), Ok(attrs(&[("k", "v"), ("k2", "v2")])));
    assert_eq!(parse_rest(&mut parser), vec![Element::text("rest")]);

    let mut parser = Parser::new("/> rest");
    assert_eq!(parser.parse_attributes(), Ok(Attributes::new()));
    assert_eq!(parse_rest(&mut parser), vec![Element::text("rest")]);

    let mut parser = Parser::new("k v=w>");
    assert_eq!(parser.parse_attributes(), Err(ParseError::Unexpected));
    // `k` and `v` were consumed
    assert_eq!(parse_rest(&mut parser), vec![Element::text("="), Element::text("w"), Element::text(">")]);
}

#[test]
fn skip_comment_stops_behind_the_closing_angle() {
    let mut parser = Parser::new(" a -- b -- > c");
    parser.skip_comment();
    assert_eq!(parse_rest(&mut parser), vec![Element::text("c")]);

    let mut parser = Parser::new("> a");
    parser.skip_comment();
    assert_eq!(parse_rest(&mut parser), vec![]);
}

#[test]
fn errors_describe_themselves() {
    assert_eq!(ParseError::Unexpected.message(), "unexpected");
    assert_eq!(ParseError::Useless.message(), "useless");
}

#[test]
fn position_follows_what_was_read() {
    let mut parser = Parser::new("a b=c> d");
    assert_eq!(parser.position(), 0);
    assert!(parser.parse_tag().is_ok());
    assert_eq!(parser.position(), 6);
    parser.parse();
    assert_eq!(parser.position(), 8);
}

#[test]
fn parsed_texts_borrow_from_the_buffer() {
    let text = String::from("<a k=v>run");
    let elements = parse(&text);
    match &elements[0] {
        Element::Tag { ident, attrs } => {
            assert!(matches!(ident, Cow::Borrowed(_)));
            assert_eq!(ident.as_ptr(), text[1..].as_ptr());
            let entries = attrs.entries();
            assert!(matches!(entries[0], (Cow::Borrowed(_), Cow::Borrowed(_))));
            assert_eq!(entries[0].0.as_ptr(), text[3..].as_ptr());
            assert_eq!(entries[0].1.as_ptr(), text[5..].as_ptr());
        }
        Element::Text(_) => panic!("a tag was expected"),
    }
    match &elements[1] {
        Element::Text(run) => {
            assert!(matches!(run, Cow::Borrowed(_)));
            assert_eq!(run.as_ptr(), text[7..].as_ptr());
        }
        Element::Tag { .. } => panic!("text was expected"),
    }
}
