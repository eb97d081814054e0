use std::borrow::Cow;

use s_html_parser::element::{Attributes, Element, UnstructuredSequence};
use s_html_parser::token::{Token, TokenKind};

#[test]
fn new_attributes_are_empty() {
    let attrs = Attributes::new();
    assert!(attrs.is_empty());
    assert_eq!(attrs.len(), 0);
    assert_eq!(attrs.get("a"), None);
    assert!(!attrs.contains_key("a"));
    assert_eq!(attrs, Attributes::default());
}

#[test]
fn insert_writes_and_overwrites() {
    let mut attrs = Attributes::new();
    assert_eq!(attrs.insert("a".into(), "1".into()), None);
    assert_eq!(attrs.insert("b".into(), "2".into()), None);
    assert_eq!(attrs.insert("c".into(), "3".into()), None);
    assert_eq!(attrs.len(), 3);
    assert_eq!(attrs.insert("a".into(), "4".to_string().into()), Some("1".into()));
    assert_eq!(attrs.len(), 3);
    assert!(!attrs.is_empty());
    assert_eq!(attrs.get("a"), Some("4"));
    assert_eq!(attrs.get("b"), Some("2"));
    assert_eq!(attrs.get("c"), Some("3"));
    assert_eq!(attrs.get("d"), None);
    assert_eq!(attrs.get(""), None);
    assert_eq!(attrs.get("A"), None);
    assert!(attrs.contains_key("c"));
    assert!(!attrs.contains_key("cc"));
}

#[test]
fn entries_hold_each_key_once() {
    let mut attrs = Attributes::new();
    attrs.insert("k".into(), "1".into());
    attrs.insert("l".into(), "2".into());
    attrs.insert("k".into(), "3".into());
    let mut entries = attrs.entries().clone();
    entries.sort();
    assert_eq!(entries, vec![("k".into(), "3".into()), ("l".into(), "2".into())]);
}

#[test]
fn attributes_compare_as_maps() {
    let mut one = Attributes::new();
    one.insert("a".into(), "1".into());
    one.insert("b".into(), "2".into());
    let mut other = Attributes::new();
    other.insert("b".into(), "0".into());
    other.insert("a".into(), "1".into());
    assert_ne!(one, other);
    other.insert("b".into(), "2".into());
    assert_eq!(one, other);
    assert_eq!(other, one);
    other.insert("c".into(), "3".into());
    assert_ne!(one, other);
    assert_ne!(other, one);
    assert_ne!(one, Attributes::new());

    let mut keys = Attributes::new();
    keys.insert("a".into(), "1".into());
    keys.insert("c".into(), "2".into());
    assert_ne!(one, keys);
}

#[test]
fn clone_of_attributes_is_equal() {
    let mut attrs = Attributes::new();
    attrs.insert("a".into(), "1".into());
    attrs.insert("b".into(), "2".into());
    let copy = attrs.clone();
    assert_eq!(copy, attrs);
    assert_eq!(copy.get("b"), Some("2"));
    attrs.insert("b".into(), "3".into());
    assert_ne!(copy, attrs);
}

#[test]
fn element_constructors() {
    let mut attrs = Attributes::new();
    attrs.insert("id".into(), "x".into());
    match Element::tag("div", attrs.clone()) {
        Element::Tag { ident, attrs: held } => {
            assert_eq!(ident, "div");
            assert_eq!(held, attrs);
        }
        Element::Text(_) => panic!("a tag was expected"),
    }
    assert_eq!(Element::no_attrs("p"), Element::tag("p", Attributes::new()));
    assert_ne!(Element::no_attrs("p"), Element::tag("p", attrs));
    assert_ne!(Element::no_attrs("p"), Element::no_attrs("q"));
    match Element::text("some text") {
        Element::Text(text) => assert_eq!(text, "some text"),
        Element::Tag { .. } => panic!("text was expected"),
    }
    assert_ne!(Element::text("p"), Element::no_attrs("p"));
}

#[test]
fn element_from_strings() {
    assert_eq!(Element::from("abc"), Element::text("abc"));
    assert!(matches!(Element::from("abc"), Element::Text(Cow::Borrowed("abc"))));
    assert_eq!(Element::from("abc".to_string()), Element::text("abc"));
    assert!(matches!(Element::from("abc".to_string()), Element::Text(Cow::Owned(_))));
    assert_eq!(Element::from(Cow::Borrowed("abc")), Element::text("abc"));
    assert!(matches!(Element::from(Cow::Borrowed("abc")), Element::Text(Cow::Borrowed("abc"))));
    let owned: Cow<str> = Cow::Owned("abc".to_string());
    assert!(matches!(Element::from(owned), Element::Text(Cow::Owned(_))));
    let element: Element = "x".into();
    assert_eq!(element, Element::Text("x".to_string().into()));
}

#[test]
fn element_from_tokens() {
    assert_eq!(Element::try_from(TokenKind::text("run")), Ok(Element::text("run")));
    assert_eq!(Element::try_from(TokenKind::LAngle), Err(()));
    assert_eq!(Element::try_from(TokenKind::RAngle), Err(()));
    assert_eq!(Element::try_from(TokenKind::Backslash), Err(()));
    assert_eq!(Element::try_from(TokenKind::Equals), Err(()));
    assert_eq!(Element::try_from(TokenKind::Exclamation), Err(()));
    assert_eq!(Element::try_from(TokenKind::Eof), Err(()));
    assert_eq!(Element::try_from(Token::new(2, 3, TokenKind::text("run"))), Ok(Element::text("run")));
    assert_eq!(Element::try_from(Token::single(0, TokenKind::Equals)), Err(()));
    assert_eq!(Element::try_from(Token::eof(9)), Err(()));
}

#[test]
fn sequence_keeps_the_order() {
    let mut sequence = UnstructuredSequence::default();
    assert!(sequence.is_empty());
    sequence.push(Element::text("a"));
    sequence.push(Element::no_attrs("b"));
    sequence.push(Element::text("c"));
    assert_eq!(sequence.len(), 3);
    assert_eq!(sequence[0], Element::text("a"));
    assert_eq!(sequence[1], Element::no_attrs("b"));
    assert_eq!(sequence[2], Element::text("c"));
    assert_eq!(sequence.get(3), None);
    let elements: Vec<Element> = sequence.clone().into_iter().collect();
    assert_eq!(elements, vec![Element::text("a"), Element::no_attrs("b"), Element::text("c")]);
    assert_eq!(sequence.iter().count(), 3);
}

#[test]
fn sequence_from_a_vector() {
    let sequence = UnstructuredSequence::from(vec![Element::text("x"), Element::text("y")]);
    assert_eq!(sequence.len(), 2);
    assert_eq!(sequence[1], Element::text("y"));
    assert!(UnstructuredSequence::new().is_empty());
}

#[test]
fn sequence_can_be_changed_as_a_vector() {
    let mut sequence = UnstructuredSequence::from(vec![Element::text("x"), Element::text("y")]);
    sequence[0] = Element::no_attrs("z");
    assert_eq!(sequence.pop(), Some(Element::text("y")));
    sequence.insert(0, Element::text("w"));
    let elements: Vec<Element> = sequence.into_iter().collect();
    assert_eq!(elements, vec![Element::text("w"), Element::no_attrs("z")]);
}

#[test]
fn keys_are_told_apart_by_their_characters() {
    let mut attrs = Attributes::new();
    attrs.insert("é".into(), "1".into());
    attrs.insert("e".into(), "2".into());
    attrs.insert("ée".into(), "3".into());
    attrs.insert("".into(), "4".into());
    assert_eq!(attrs.len(), 4);
    assert_eq!(attrs.get("é"), Some("1"));
    assert_eq!(attrs.get("e"), Some("2"));
    assert_eq!(attrs.get("ée"), Some("3"));
    assert_eq!(attrs.get(""), Some("4"));
    assert_eq!(attrs.get("è"), None);
    assert_eq!(attrs.get("eé"), None);
}

#[test]
fn token_kinds_compare_by_variant_and_text() {
    assert_eq!(TokenKind::text("abc"), TokenKind::Text(Cow::Borrowed("abc")));
    assert_eq!(TokenKind::text("abc"), TokenKind::Text(Cow::Owned("abc".to_string())));
    assert_ne!(TokenKind::text("abc"), TokenKind::Text("abd".into()));
    assert_ne!(TokenKind::text("abc"), TokenKind::Text("ab".into()));
    assert_ne!(TokenKind::text("<"), TokenKind::LAngle);
    assert_ne!(TokenKind::LAngle, TokenKind::RAngle);
    assert_ne!(TokenKind::Eof, TokenKind::text(""));
    assert_eq!(TokenKind::Eof, TokenKind::Eof);
    assert_ne!(Token::new(0, 1, TokenKind::Equals), Token::new(1, 1, TokenKind::Equals));
    assert_ne!(Token::new(0, 1, TokenKind::Equals), Token::new(0, 2, TokenKind::Equals));
    assert_ne!(Token::new(0, 1, TokenKind::Equals), Token::new(0, 1, TokenKind::Backslash));
    assert_eq!(Token::single(4, TokenKind::Equals), Token::new(4, 1, TokenKind::Equals));
}

#[test]
fn clones_are_equal_and_apart() {
    let mut attrs = Attributes::new();
    attrs.insert("a".into(), "b".into());
    let tag = Element::tag("t", attrs);
    let text = Element::text("x");
    assert_eq!(tag.clone(), tag);
    assert_eq!(text.clone(), text);
    let mut sequence = UnstructuredSequence::from(vec![tag.clone(), text.clone()]);
    let copy = sequence.clone();
    sequence.push(Element::text("y"));
    assert_eq!(copy.len(), 2);
    assert_eq!(copy[0], tag);
    assert_eq!(copy[1], text);
    assert_eq!(sequence.len(), 3);
}
