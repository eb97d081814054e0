//! The output of the parser: tags with their attributes, text runs, and the
//! ordered sequence of both.

use crate::strings::{cow_clone, cow_eq, cow_str, str_eq};
use crate::token::{Token, TokenKind, TokenKindView};
use std::borrow::Cow;
use vstd::prelude::*;
use vstd::set_lib::lemma_subset_equality;
use vstd::std_specs::cmp::PartialEqSpecImpl;
use vstd::std_specs::convert::{FromSpecImpl, TryFromSpecImpl};
use vstd::std_specs::iter::IteratorSpec;
use vstd::std_specs::vec::axiom_spec_into_iter;

verus! {

/// The map that a list of key-value entries stands for: the entries are
/// written into an empty map one after another, so a later entry replaces an
/// earlier one with the same key.
pub open spec fn entries_map<'a>(entries: Seq<(Cow<'a, str>, Cow<'a, str>)>) -> Map<Seq<char>, Seq<char>>
    decreases entries.len(),
{
    if entries.len() == 0 {
        Map::empty()
    } else {
        entries_map(entries.drop_last()).insert(entries.last().0@, entries.last().1@)
    }
}

/// No two entries have the same key.
pub open spec fn keys_unique<'a>(entries: Seq<(Cow<'a, str>, Cow<'a, str>)>) -> bool {
    forall|i: int, j: int|
        0 <= i < j < entries.len() ==> (#[trigger] entries[i]).0@ != (#[trigger] entries[j]).0@
}

/// The keys of the map are the keys of the entries.
proof fn lemma_entries_map_keys<'a>(entries: Seq<(Cow<'a, str>, Cow<'a, str>)>)
    ensures
        entries_map(entries).dom().finite(),
        forall|key: Seq<char>| #[trigger]
            entries_map(entries).contains_key(key) <==> exists|i: int|
                0 <= i < entries.len() && (#[trigger] entries[i]).0@ == key,
    decreases entries.len(),
{
    if entries.len() > 0 {
        let front = entries.drop_last();
        lemma_entries_map_keys(front);
        assert forall|key: Seq<char>| #[trigger]
            entries_map(entries).contains_key(key) implies exists|i: int|
            0 <= i < entries.len() && (#[trigger] entries[i]).0@ == key by {
            if key != entries.last().0@ {
                let i = choose|i: int| 0 <= i < front.len() && (#[trigger] front[i]).0@ == key;
                assert(entries[i].0@ == key);
            }
        }
        assert forall|key: Seq<char>|
            (exists|i: int|
                0 <= i < entries.len() && (#[trigger] entries[i]).0@ == key) implies #[trigger]
            entries_map(entries).contains_key(key) by {
            let i = choose|i: int| 0 <= i < entries.len() && (#[trigger] entries[i]).0@ == key;
            if i < entries.len() - 1 {
                assert(front[i].0@ == key);
            }
        }
    }
}

/// Where no key occurs twice, every entry is in the map with its own value,
/// and the map has as many keys as there are entries.
proof fn lemma_entries_map_unique<'a>(entries: Seq<(Cow<'a, str>, Cow<'a, str>)>)
    requires
        keys_unique(entries),
    ensures
        entries_map(entries).len() == entries.len(),
        forall|i: int|
            0 <= i < entries.len() ==> entries_map(entries).contains_key(
                (#[trigger] entries[i]).0@,
            ) && entries_map(entries)[entries[i].0@] == entries[i].1@,
    decreases entries.len(),
{
    lemma_entries_map_keys(entries);
    if entries.len() > 0 {
        let front = entries.drop_last();
        assert(keys_unique(front)) by {
            assert forall|i: int, j: int| 0 <= i < j < front.len() implies (
            #[trigger] front[i]).0@ != (#[trigger] front[j]).0@ by {
                assert(front[i] == entries[i] && front[j] == entries[j]);
            }
        }
        lemma_entries_map_unique(front);
        lemma_entries_map_keys(front);
        // the last key is new, so the map grows by one
        assert(!entries_map(front).contains_key(entries.last().0@)) by {
            if entries_map(front).contains_key(entries.last().0@) {
                let i = choose|i: int|
                    0 <= i < front.len() && (#[trigger] front[i]).0@ == entries.last().0@;
                assert(entries[i].0@ == entries[entries.len() - 1].0@);
            }
        }
        assert forall|i: int| 0 <= i < entries.len() implies entries_map(entries)[(
        #[trigger] entries[i]).0@] == entries[i].1@ by {
            if i < entries.len() - 1 {
                assert(front[i] == entries[i]);
            }
        }
    }
}

/// Two lists whose entries have the same characters, place by place, stand
/// for the same map, and keys that are unique in one are unique in the
/// other.
proof fn lemma_entries_map_same<'a, 'b>(
    one: Seq<(Cow<'a, str>, Cow<'a, str>)>,
    other: Seq<(Cow<'b, str>, Cow<'b, str>)>,
)
    requires
        one.len() == other.len(),
        forall|j: int|
            0 <= j < one.len() ==> (#[trigger] one[j]).0@ == other[j].0@ && one[j].1@
                == other[j].1@,
    ensures
        entries_map(one) == entries_map(other),
        keys_unique(other) ==> keys_unique(one),
    decreases one.len(),
{
    if one.len() > 0 {
        lemma_entries_map_same(one.drop_last(), other.drop_last());
    }
}

/// Every key and every value borrows its characters.
pub open spec fn entries_borrowed<'a>(entries: Seq<(Cow<'a, str>, Cow<'a, str>)>) -> bool {
    forall|i: int|
        0 <= i < entries.len() ==> (#[trigger] entries[i]).0 is Borrowed && entries[i].1 is Borrowed
}

/// The attributes of a tag: a finite map from keys to values. A key occurs
/// once; writing a key again replaces its value. The order in which the keys
/// were written does not count.
///
/// Keys and values borrow their characters or own them; the parser hands
/// out borrows into its buffer.
#[derive(Debug)]
pub struct Attributes<'a> {
    entries: Vec<(Cow<'a, str>, Cow<'a, str>)>,
}

impl<'a> View for Attributes<'a> {
    type V = Map<Seq<char>, Seq<char>>;

    closed spec fn view(&self) -> Map<Seq<char>, Seq<char>> {
        entries_map(self.entries@)
    }
}

impl<'a> Attributes<'a> {
    #[verifier::type_invariant]
    spec fn keys_occur_once(self) -> bool {
        keys_unique(self.entries@)
    }

    /// Whether the map owns no text: every key and every value borrows its
    /// characters.
    pub closed spec fn borrowed(&self) -> bool {
        entries_borrowed(self.entries@)
    }

    /// The empty map.
    pub fn new() -> (attrs: Self)
        ensures
            attrs@ == Map::<Seq<char>, Seq<char>>::empty(),
            attrs.borrowed(),
    {
        Attributes { entries: Vec::new() }
    }

    /// The number of keys.
    pub fn len(&self) -> (n: usize)
        ensures
            self@.dom().finite(),
            n == self@.len(),
    {
        proof {
            use_type_invariant(self);
            lemma_entries_map_unique(self.entries@);
            lemma_entries_map_keys(self.entries@);
        }
        self.entries.len()
    }

    /// Whether the map has no key.
    pub fn is_empty(&self) -> (r: bool)
        ensures
            r == (self@ == Map::<Seq<char>, Seq<char>>::empty()),
    {
        proof {
            use_type_invariant(self);
            lemma_entries_map_unique(self.entries@);
            lemma_entries_map_keys(self.entries@);
        }
        self.entries.is_empty()
    }

    /// The entries of the map, each key once, in no particular order.
    pub fn entries(&self) -> (entries: &Vec<(Cow<'a, str>, Cow<'a, str>)>)
        ensures
            keys_unique(entries@),
            entries_map(entries@) == self@,
            entries_borrowed(entries@) == self.borrowed(),
    {
        proof {
            use_type_invariant(self);
        }
        &self.entries
    }

    /// The value of `key`, if the map has the key.
    pub fn get(&self, key: &str) -> (r: Option<&str>)
        ensures
            match r {
                Some(value) => self@.contains_key(key@) && self@[key@] == value@,
                None => !self@.contains_key(key@),
            },
    {
        proof {
            use_type_invariant(self);
            lemma_entries_map_unique(self.entries@);
            lemma_entries_map_keys(self.entries@);
        }
        match position(&self.entries, key) {
            Some(i) => Some(cow_str(&self.entries[i].1)),
            None => None,
        }
    }

    /// Whether the map has `key`.
    pub fn contains_key(&self, key: &str) -> (r: bool)
        ensures
            r == self@.contains_key(key@),
    {
        proof {
            lemma_entries_map_keys(self.entries@);
        }
        position(&self.entries, key).is_some()
    }

    /// Writes `value` under `key` and returns the value that stood there
    /// before, if there was one.
    pub fn insert(&mut self, key: Cow<'a, str>, value: Cow<'a, str>) -> (previous: Option<
        Cow<'a, str>,
    >)
        ensures
            final(self)@ == old(self)@.insert(key@, value@),
            match previous {
                Some(was) => old(self)@.contains_key(key@) && old(self)@[key@] == was@,
                None => !old(self)@.contains_key(key@),
            },
            old(self).borrowed() && key is Borrowed && value is Borrowed ==> final(self).borrowed(),
    {
        proof {
            use_type_invariant(&*self);
        }
        let mut entries: Vec<(Cow<'a, str>, Cow<'a, str>)> = Vec::new();
        core::mem::swap(&mut self.entries, &mut entries);
        let previous = put(&mut entries, key, value);
        core::mem::swap(&mut self.entries, &mut entries);
        previous
    }
}

/// The index of the entry with the given key, if there is one.
fn position<'a>(entries: &Vec<(Cow<'a, str>, Cow<'a, str>)>, key: &str) -> (r: Option<usize>)
    ensures
        match r {
            Some(i) => i < entries@.len() && entries@[i as int].0@ == key@,
            None => forall|i: int| 0 <= i < entries@.len() ==> (#[trigger] entries@[i]).0@ != key@,
        },
{
    let mut i: usize = 0;
    while i < entries.len()
        invariant
            i <= entries@.len(),
            forall|j: int| 0 <= j < i ==> (#[trigger] entries@[j]).0@ != key@,
        decreases entries@.len() - i,
    {
        if str_eq(cow_str(&entries[i].0), key) {
            return Some(i);
        }
        i = i + 1;
    }
    None
}

/// Takes the entry with the given key out, if there is one, and appends the
/// new entry.
fn put<'a>(
    entries: &mut Vec<(Cow<'a, str>, Cow<'a, str>)>,
    key: Cow<'a, str>,
    value: Cow<'a, str>,
) -> (previous: Option<Cow<'a, str>>)
    requires
        keys_unique(old(entries)@),
    ensures
        keys_unique(final(entries)@),
        entries_map(final(entries)@) == entries_map(old(entries)@).insert(key@, value@),
        entries_borrowed(old(entries)@) && key is Borrowed && value is Borrowed
            ==> entries_borrowed(final(entries)@),
        match previous {
            Some(was) => entries_map(old(entries)@).contains_key(key@) && entries_map(
                old(entries)@,
            )[key@] == was@,
            None => !entries_map(old(entries)@).contains_key(key@),
        },
{
    let ghost before = entries@;
    proof {
        lemma_entries_map_unique(before);
        lemma_entries_map_keys(before);
    }
    let found = position(entries, cow_str(&key));
    let previous = match found {
        Some(i) => {
            let entry = entries.swap_remove(i);
            Some(entry.1)
        },
        None => None,
    };
    let ghost rest = entries@;
    proof {
        // where each entry that is left stood before
        let last = before.len() - 1;
        let origin = |a: int|
            if found is Some && a == found->Some_0 {
                last
            } else {
                a
            };
        assert forall|a: int| 0 <= a < rest.len() implies #[trigger] rest[a] == before[origin(a)]
            && 0 <= origin(a) < before.len() && rest[a].0@ != key@ by {
            if found is Some {
                assert(before[origin(a)].0@ != before[found->Some_0 as int].0@);
            }
        }
        assert(keys_unique(rest)) by {
            assert forall|a: int, b: int| 0 <= a < b < rest.len() implies (#[trigger] rest[a]).0@
                != (#[trigger] rest[b]).0@ by {
                assert(before[origin(a)].0@ != before[origin(b)].0@);
            }
        }
        lemma_entries_map_unique(rest);
        lemma_entries_map_keys(rest);
        assert(entries_map(rest) =~= entries_map(before).remove(key@)) by {
            assert forall|k: Seq<char>|
                entries_map(rest).contains_key(k) implies entries_map(before).contains_key(k) && k
                != key@ && entries_map(rest)[k] == entries_map(before)[k] by {
                let a = choose|a: int| 0 <= a < rest.len() && (#[trigger] rest[a]).0@ == k;
                assert(before[origin(a)].0@ == k);
            }
            assert forall|k: Seq<char>|
                entries_map(before).contains_key(k) && k != key@ implies entries_map(
                rest,
            ).contains_key(k) by {
                let b = choose|b: int| 0 <= b < before.len() && (#[trigger] before[b]).0@ == k;
                let a = if found is Some && b == last {
                    found->Some_0 as int
                } else {
                    b
                };
                assert(rest[a].0@ == k);
            }
        }
    }
    entries.push((key, value));
    proof {
        let after = entries@;
        assert(after.drop_last() =~= rest);
        assert(keys_unique(after)) by {
            assert forall|a: int, b: int| 0 <= a < b < after.len() implies (
            #[trigger] after[a]).0@ != (#[trigger] after[b]).0@ by {
                assert(after[a] == rest[a]);
            }
        }
    }
    previous
}

impl<'a> Clone for Attributes<'a> {
    /// A copy of the map; what is borrowed stays borrowed.
    fn clone(&self) -> (attrs: Self)
        ensures
            attrs@ == self@,
            self.borrowed() ==> attrs.borrowed(),
    {
        proof {
            use_type_invariant(self);
        }
        let mut entries: Vec<(Cow<'a, str>, Cow<'a, str>)> = Vec::new();
        let mut i: usize = 0;
        while i < self.entries.len()
            invariant
                i <= self.entries@.len(),
                entries@.len() == i,
                forall|j: int|
                    0 <= j < i ==> (#[trigger] entries@[j]).0@ == self.entries@[j].0@
                        && entries@[j].1@ == self.entries@[j].1@,
                forall|j: int|
                    0 <= j < i && self.entries@[j].0 is Borrowed && self.entries@[j].1 is Borrowed
                        ==> (#[trigger] entries@[j]).0 is Borrowed && entries@[j].1 is Borrowed,
            decreases self.entries@.len() - i,
        {
            entries.push((cow_clone(&self.entries[i].0), cow_clone(&self.entries[i].1)));
            i = i + 1;
        }
        proof {
            lemma_entries_map_same(entries@, self.entries@);
        }
        Attributes { entries }
    }
}

impl<'a> Default for Attributes<'a> {
    /// The empty map.
    fn default() -> (attrs: Self)
        ensures
            attrs@ == Map::<Seq<char>, Seq<char>>::empty(),
            attrs.borrowed(),
    {
        Attributes::new()
    }
}

impl<'a> PartialEq for Attributes<'a> {
    /// Two attribute maps are equal when they hold the same keys with the
    /// same values.
    fn eq(&self, other: &Self) -> (r: bool) {
        proof {
            use_type_invariant(self);
            use_type_invariant(other);
            lemma_entries_map_unique(self.entries@);
            lemma_entries_map_keys(self.entries@);
            lemma_entries_map_unique(other.entries@);
            lemma_entries_map_keys(other.entries@);
        }
        if self.entries.len() != other.entries.len() {
            return false;
        }
        let mut i: usize = 0;
        while i < self.entries.len()
            invariant
                i <= self.entries@.len(),
                forall|j: int|
                    0 <= j < i ==> other@.contains_key((#[trigger] self.entries@[j]).0@)
                        && other@[self.entries@[j].0@] == self.entries@[j].1@,
                forall|j: int|
                    0 <= j < self.entries@.len() ==> self@.contains_key(
                        (#[trigger] self.entries@[j]).0@,
                    ) && self@[self.entries@[j].0@] == self.entries@[j].1@,
            decreases self.entries@.len() - i,
        {
            match other.get(cow_str(&self.entries[i].0)) {
                Some(value) => {
                    if !str_eq(value, cow_str(&self.entries[i].1)) {
                        return false;
                    }
                },
                None => {
                    return false;
                },
            }
            i = i + 1;
        }
        proof {
            assert forall|key: Seq<char>| self@.contains_key(key) implies other@.contains_key(key)
                && other@[key] == self@[key] by {
                let j = choose|j: int|
                    0 <= j < self.entries@.len() && (#[trigger] self.entries@[j]).0@ == key;
                assert(other@[self.entries@[j].0@] == self.entries@[j].1@);
            }
            lemma_subset_equality(self@.dom(), other@.dom());
            assert(self@ =~= other@);
        }
        true
    }
}

impl<'a> PartialEqSpecImpl for Attributes<'a> {
    open spec fn obeys_eq_spec() -> bool {
        true
    }

    open spec fn eq_spec(&self, other: &Self) -> bool {
        self@ == other@
    }
}

impl<'a> Eq for Attributes<'a> {

}

/// One piece of the parser's output: a tag with its attributes, or a run
/// of text. A closing tag is a tag like any other; nothing is nested.
///
/// Every text in it borrows its characters or owns them. What the parser
/// finds borrows from the parser's buffer.
#[derive(Debug)]
pub enum Element<'a> {
    /// Any tag
    Tag { ident: Cow<'a, str>, attrs: Attributes<'a> },
    /// Text outside of tags
    Text(Cow<'a, str>),
}

/// The mathematical value of an [`Element`].
pub enum ElementView {
    Tag { ident: Seq<char>, attrs: Map<Seq<char>, Seq<char>> },
    Text(Seq<char>),
}

impl<'a> View for Element<'a> {
    type V = ElementView;

    open spec fn view(&self) -> ElementView {
        match self {
            Element::Tag { ident, attrs } => ElementView::Tag { ident: ident@, attrs: attrs@ },
            Element::Text(text) => ElementView::Text(text@),
        }
    }
}

impl<'a> Clone for Element<'a> {
    /// A copy of the element; what is borrowed stays borrowed.
    fn clone(&self) -> (element: Self)
        ensures
            element@ == self@,
            self.borrowed() ==> element.borrowed(),
    {
        match self {
            Element::Tag { ident, attrs } => Element::Tag {
                ident: cow_clone(ident),
                attrs: attrs.clone(),
            },
            Element::Text(text) => Element::Text(cow_clone(text)),
        }
    }
}

impl<'a> PartialEq for Element<'a> {
    /// Two elements are equal when both are the same tag with the same
    /// attributes, or both are the same text.
    fn eq(&self, other: &Self) -> (r: bool) {
        match (self, other) {
            (
                Element::Tag { ident, attrs },
                Element::Tag { ident: other_ident, attrs: other_attrs },
            ) => cow_eq(ident, other_ident) && attrs.eq(other_attrs),
            (Element::Text(text), Element::Text(other_text)) => cow_eq(text, other_text),
            _ => false,
        }
    }
}

impl<'a> PartialEqSpecImpl for Element<'a> {
    open spec fn obeys_eq_spec() -> bool {
        true
    }

    open spec fn eq_spec(&self, other: &Self) -> bool {
        self@ == other@
    }
}

impl<'a> Eq for Element<'a> {

}

impl<'a> Element<'a> {
    /// Whether the element owns no text: the identifier, the keys and the
    /// values of a tag, or the text, borrow their characters.
    pub open spec fn borrowed(&self) -> bool {
        match self {
            Element::Tag { ident, attrs } => ident is Borrowed && attrs.borrowed(),
            Element::Text(text) => text is Borrowed,
        }
    }

    /// The tag `ident` with the attributes `attrs`; the identifier is
    /// borrowed.
    #[inline]
    pub fn tag(ident: &'a str, attrs: Attributes<'a>) -> (element: Self)
        ensures
            element == (Element::Tag { ident: Cow::Borrowed(ident), attrs }),
    {
        Element::Tag { ident: Cow::Borrowed(ident), attrs }
    }

    /// The tag `ident` without attributes; the identifier is borrowed.
    #[inline]
    pub fn no_attrs(ident: &'a str) -> (element: Self)
        ensures
            element@ == (ElementView::Tag { ident: ident@, attrs: Map::empty() }),
            element.borrowed(),
    {
        Element::tag(ident, Attributes::new())
    }

    /// The text run `text`, borrowed.
    #[inline]
    pub fn text(text: &'a str) -> (element: Self)
        ensures
            element == Element::Text(Cow::Borrowed(text)),
    {
        Element::Text(Cow::Borrowed(text))
    }
}

impl<'a> From<&'a str> for Element<'a> {
    /// The text run `text`, borrowed.
    fn from(text: &'a str) -> (element: Self) {
        Element::Text(Cow::Borrowed(text))
    }
}

impl<'a> FromSpecImpl<&'a str> for Element<'a> {
    open spec fn obeys_from_spec() -> bool {
        true
    }

    open spec fn from_spec(text: &'a str) -> Self {
        Element::Text(Cow::Borrowed(text))
    }
}

impl<'a> From<Cow<'a, str>> for Element<'a> {
    /// The text run `text`, as it is.
    fn from(text: Cow<'a, str>) -> (element: Self) {
        Element::Text(text)
    }
}

impl<'a> FromSpecImpl<Cow<'a, str>> for Element<'a> {
    open spec fn obeys_from_spec() -> bool {
        true
    }

    open spec fn from_spec(text: Cow<'a, str>) -> Self {
        Element::Text(text)
    }
}

impl<'a> From<String> for Element<'a> {
    /// The text run `text`, owned.
    fn from(text: String) -> (element: Self) {
        Element::Text(Cow::Owned(text))
    }
}

impl<'a> FromSpecImpl<String> for Element<'a> {
    open spec fn obeys_from_spec() -> bool {
        true
    }

    open spec fn from_spec(text: String) -> Self {
        Element::Text(Cow::Owned(text))
    }
}

impl<'a> TryFrom<TokenKind<'a>> for Element<'a> {
    type Error = ();

    /// A text run becomes a text element; any other kind is refused.
    fn try_from(value: TokenKind<'a>) -> (r: Result<Self, ()>) {
        match value {
            TokenKind::Text(text) => Ok(Element::Text(text)),
            _ => Err(()),
        }
    }
}

impl<'a> TryFromSpecImpl<TokenKind<'a>> for Element<'a> {
    open spec fn obeys_try_from_spec() -> bool {
        true
    }

    open spec fn try_from_spec(value: TokenKind<'a>) -> Result<Self, ()> {
        match value {
            TokenKind::Text(text) => Ok(Element::Text(text)),
            _ => Err(()),
        }
    }
}

impl<'a> TryFrom<Token<'a>> for Element<'a> {
    type Error = ();

    /// A text run becomes a text element; any other token is refused.
    fn try_from(value: Token<'a>) -> (r: Result<Self, ()>) {
        match value.kind {
            TokenKind::Text(text) => Ok(Element::Text(text)),
            _ => Err(()),
        }
    }
}

impl<'a> TryFromSpecImpl<Token<'a>> for Element<'a> {
    open spec fn obeys_try_from_spec() -> bool {
        true
    }

    open spec fn try_from_spec(value: Token<'a>) -> Result<Self, ()> {
        match value.kind {
            TokenKind::Text(text) => Ok(Element::Text(text)),
            _ => Err(()),
        }
    }
}

/// The ordered, flat output of one parse: elements in the order in which
/// they were found.
#[derive(Debug)]
pub struct UnstructuredSequence<'a>(Vec<Element<'a>>);

impl<'a> View for UnstructuredSequence<'a> {
    type V = Seq<ElementView>;

    closed spec fn view(&self) -> Seq<ElementView> {
        Seq::new(self.0@.len(), |i: int| self.0@[i]@)
    }
}

impl<'a> UnstructuredSequence<'a> {
    /// Whether the sequence owns no text: every element borrows its
    /// characters.
    pub closed spec fn borrowed(&self) -> bool {
        forall|i: int| 0 <= i < self.0@.len() ==> (#[trigger] self.0@[i]).borrowed()
    }

    /// The empty sequence.
    pub fn new() -> (sequence: Self)
        ensures
            sequence@ == Seq::<ElementView>::empty(),
            sequence.borrowed(),
    {
        UnstructuredSequence(Vec::new())
    }

    /// Appends `element`.
    pub fn push(&mut self, element: Element<'a>)
        ensures
            final(self)@ == old(self)@.push(element@),
            final(self).borrowed() == (old(self).borrowed() && element.borrowed()),
    {
        self.0.push(element);
        proof {
            if self.borrowed() {
                // what holds of the longer sequence holds of its parts
                assert(self.0@[self.0@.len() - 1].borrowed());
                assert forall|i: int| 0 <= i < old(self).0@.len() implies (
                #[trigger] old(self).0@[i]).borrowed() by {
                    assert(self.0@[i] == old(self).0@[i]);
                }
            }
        }
    }
}

impl<'a> Clone for UnstructuredSequence<'a> {
    /// A copy of the sequence; what is borrowed stays borrowed.
    fn clone(&self) -> (sequence: Self)
        ensures
            sequence@ == self@,
            self.borrowed() ==> sequence.borrowed(),
    {
        let mut elements: Vec<Element<'a>> = Vec::new();
        let mut i: usize = 0;
        while i < self.0.len()
            invariant
                i <= self.0@.len(),
                elements@.len() == i,
                forall|j: int| 0 <= j < i ==> (#[trigger] elements@[j])@ == self.0@[j]@,
                forall|j: int|
                    0 <= j < i && self.0@[j].borrowed() ==> (#[trigger] elements@[j]).borrowed(),
            decreases self.0@.len() - i,
        {
            elements.push(self.0[i].clone());
            i = i + 1;
        }
        UnstructuredSequence(elements)
    }
}

impl<'a> Default for UnstructuredSequence<'a> {
    /// The empty sequence.
    fn default() -> (sequence: Self)
        ensures
            sequence@ == Seq::<ElementView>::empty(),
            sequence.borrowed(),
    {
        UnstructuredSequence::new()
    }
}

impl<'a> From<Vec<Element<'a>>> for UnstructuredSequence<'a> {
    /// The sequence of the elements of `value`, in their order.
    fn from(value: Vec<Element<'a>>) -> (sequence: Self)
        ensures
            sequence@.len() == value@.len(),
            forall|i: int| 0 <= i < value@.len() ==> sequence@[i] == (#[trigger] value@[i])@,
            sequence.borrowed() == (forall|i: int|
                0 <= i < value@.len() ==> (#[trigger] value@[i]).borrowed()),
    {
        UnstructuredSequence(value)
    }
}

impl<'a> FromSpecImpl<Vec<Element<'a>>> for UnstructuredSequence<'a> {
    open spec fn obeys_from_spec() -> bool {
        true
    }

    closed spec fn from_spec(value: Vec<Element<'a>>) -> Self {
        UnstructuredSequence(value)
    }
}

impl<'a> core::ops::Deref for UnstructuredSequence<'a> {
    type Target = Vec<Element<'a>>;

    /// The elements as a vector, for reading.
    fn deref(&self) -> (elements: &Vec<Element<'a>>)
        ensures
            elements@.len() == self@.len(),
            forall|i: int| 0 <= i < self@.len() ==> (#[trigger] elements@[i])@ == self@[i],
            self.borrowed() == (forall|i: int|
                0 <= i < elements@.len() ==> (#[trigger] elements@[i]).borrowed()),
    {
        &self.0
    }
}

impl<'a> core::ops::DerefMut for UnstructuredSequence<'a> {
    /// The elements as a vector, for writing: what the vector holds when the
    /// caller is done with it is what the sequence then holds.
    fn deref_mut(&mut self) -> (elements: &mut Vec<Element<'a>>)
        ensures
            elements@.len() == old(self)@.len(),
            forall|i: int|
                0 <= i < old(self)@.len() ==> (#[trigger] elements@[i])@ == old(self)@[i],
            final(self)@.len() == final(elements)@.len(),
            forall|i: int|
                0 <= i < final(elements)@.len() ==> (#[trigger] final(self)@[i]) == final(
                    elements)@[i]@,
            final(self).borrowed() == (forall|i: int|
                0 <= i < final(elements)@.len() ==> (#[trigger] final(elements)@[i]).borrowed()),
    {
        &mut self.0
    }
}

impl<'a> IntoIterator for UnstructuredSequence<'a> {
    type Item = Element<'a>;

    type IntoIter = std::vec::IntoIter<Element<'a>>;

    /// An iterator that hands out the elements in their order.
    fn into_iter(self) -> (iter: std::vec::IntoIter<Element<'a>>)
        ensures
            IteratorSpec::remaining(&iter).len() == self@.len(),
            forall|i: int|
                0 <= i < self@.len() ==> (#[trigger] IteratorSpec::remaining(&iter)[i])@
                    == self@[i],
    {
        broadcast use axiom_spec_into_iter;

        self.0.into_iter()
    }
}

} // verus!
