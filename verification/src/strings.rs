//! Reading, copying and comparing the strings that tokens and elements hold.

use std::borrow::Cow;
use vstd::prelude::*;
use vstd::utf8::{encode_utf8, encode_utf8_decode_utf8};

verus! {

/// Tells whether two strings hold the same characters.
///
/// The strings are compared byte by byte: two strings have the same
/// encoding exactly when they have the same characters.
pub(crate) fn str_eq(a: &str, b: &str) -> (r: bool)
    ensures
        r == (a@ == b@),
{
    let left = a.as_bytes();
    let right = b.as_bytes();
    if left.len() != right.len() {
        return false;
    }
    let mut i: usize = 0;
    while i < left.len()
        invariant
            i <= left@.len(),
            left@.len() == right@.len(),
            left@ == encode_utf8(a@),
            right@ == encode_utf8(b@),
            forall|j: int| 0 <= j < i ==> left@[j] == right@[j],
        decreases left@.len() - i,
    {
        if left[i] != right[i] {
            return false;
        }
        i = i + 1;
    }
    proof {
        // the characters can be read back from the bytes
        assert(left@ =~= right@);
        encode_utf8_decode_utf8(a@);
        encode_utf8_decode_utf8(b@);
    }
    true
}

/// The characters of `text`, whether it borrows them or owns them.
pub(crate) fn cow_str<'b, 'a>(text: &'b Cow<'a, str>) -> (s: &'b str)
    ensures
        s@ == text@,
{
    match text {
        Cow::Borrowed(borrowed) => borrowed,
        Cow::Owned(owned) => owned.as_str(),
    }
}

/// A copy of `text`: a borrowed text stays borrowed, an owned one is copied.
pub(crate) fn cow_clone<'a>(text: &Cow<'a, str>) -> (copy: Cow<'a, str>)
    ensures
        copy@ == text@,
        text is Borrowed ==> copy == *text,
{
    match text {
        Cow::Borrowed(borrowed) => Cow::Borrowed(borrowed),
        Cow::Owned(owned) => Cow::Owned(owned.clone()),
    }
}

/// Tells whether two texts hold the same characters.
pub(crate) fn cow_eq<'a, 'b>(a: &Cow<'a, str>, b: &Cow<'b, str>) -> (r: bool)
    ensures
        r == (a@ == b@),
{
    str_eq(cow_str(a), cow_str(b))
}

} // verus!
