//! Classes of characters.

use vstd::prelude::*;

verus! {

/// Whether a character is white space.
pub open spec fn whitespace(c: char) -> bool {
    ||| '\u{9}' <= c <= '\u{d}'
    ||| c == ' '
    ||| c == '\u{85}'
    ||| c == '\u{a0}'
    ||| c == '\u{1680}'
    ||| '\u{2000}' <= c <= '\u{200a}'
    ||| c == '\u{2028}'
    ||| c == '\u{2029}'
    ||| c == '\u{202f}'
    ||| c == '\u{205f}'
    ||| c == '\u{3000}'
}

/// What `char::is_alphanumeric` answers for a character.
pub uninterp spec fn alphanumeric(c: char) -> bool;

/// Whether a character is a control character.
pub open spec fn control(c: char) -> bool {
    c <= '\u{1f}' || '\u{7f}' <= c <= '\u{9f}'
}

/// `char::is_whitespace`: whether a character has the Unicode property
/// `White_Space`, as the 25 characters above do.
#[verifier::external_body]
pub(crate) fn is_whitespace(c: char) -> (r: bool)
    ensures
        r == whitespace(c),
{
    c.is_whitespace()
}

/// `char::is_alphanumeric`, alphabetic or numeric in Unicode: a function of the
/// character alone. Which characters those are is left to the Unicode tables.
#[verifier::external_body]
pub(crate) fn is_alphanumeric(c: char) -> (r: bool)
    ensures
        r == alphanumeric(c),
{
    c.is_alphanumeric()
}

/// `char::is_control`: whether a character has the Unicode general category `Cc`.
#[verifier::external_body]
pub(crate) fn is_control(c: char) -> (r: bool)
    ensures
        r == control(c),
{
    c.is_control()
}

/// The three kinds of characters that word motions tell apart.
#[derive(Clone, Copy, Debug, PartialEq, Eq, Structural)]
pub enum CharClass {
    Space,
    Word,
    Other,
}

/// Class of a character: white space, part of a word, or anything else.
pub open spec fn class_of(c: char) -> CharClass {
    if whitespace(c) {
        CharClass::Space
    } else if alphanumeric(c) || c == '_' {
        CharClass::Word
    } else {
        CharClass::Other
    }
}

/// Classes of all characters of a text.
pub open spec fn classes_of(s: Seq<char>) -> Seq<CharClass> {
    Seq::new(s.len(), |i: int| class_of(s[i]))
}

/// Class of one character.
pub fn char_class(c: char) -> (r: CharClass)
    ensures
        r == class_of(c),
{
    if is_whitespace(c) {
        CharClass::Space
    } else if is_alphanumeric(c) || c == '_' {
        CharClass::Word
    } else {
        CharClass::Other
    }
}

/// Classes of all of `chars`.
pub fn char_classes(chars: &Vec<char>) -> (r: Vec<CharClass>)
    ensures
        r@ == classes_of(chars@),
{
    let mut r: Vec<CharClass> = Vec::new();
    let mut i: usize = 0;
    while i < chars.len()
        invariant
            i <= chars@.len(),
            r@.len() == i,
            forall|j: int| 0 <= j < i ==> r@[j] == class_of(chars@[j]),
        decreases chars@.len() - i,
    {
        r.push(char_class(chars[i]));
        i = i + 1;
    }
    assert(r@ =~= classes_of(chars@));
    r
}

/// Whether `c` is an ASCII upper-case letter.
pub open spec fn ascii_upper(c: char) -> bool {
    'A' <= c && c <= 'Z'
}

/// `c` with an ASCII upper-case letter turned to lower case.
pub open spec fn ascii_lower(c: char) -> char {
    if ascii_upper(c) {
        ((c as u32) + 32) as u32 as char
    } else {
        c
    }
}

/// Whether `c` is an ASCII decimal digit.
pub open spec fn digit(c: char) -> bool {
    '0' <= c && c <= '9'
}

/// `c` with an ASCII upper-case letter turned to lower case.
pub fn to_ascii_lower(c: char) -> (r: char)
    ensures
        r == ascii_lower(c),
{
    if 'A' <= c && c <= 'Z' {
        let b: u8 = c as u32 as u8;
        (b + 32) as char
    } else {
        c
    }
}

/// Whether `c` is an ASCII decimal digit.
pub fn is_digit(c: char) -> (r: bool)
    ensures
        r == digit(c),
{
    '0' <= c && c <= '9'
}

} // verus!
