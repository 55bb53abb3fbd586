//! Text as a sequence of characters with byte cursors into its UTF-8 encoding.
//!
//! Every cursor of the program is a byte offset. The model of a text is its
//! sequence of characters, and a valid cursor is the offset at which one of
//! its prefixes ends.

use vstd::prelude::*;
use vstd::utf8::{
    encode_utf8, encode_scalar, encode_utf8_first_scalar, encode_utf8_valid_utf8, pop_first_scalar,
};

verus! {

/// Number of bytes in the UTF-8 encoding of a character.
pub open spec fn width(c: char) -> nat {
    if c as u32 <= 0x7f {
        1
    } else if c as u32 <= 0x7ff {
        2
    } else if c as u32 <= 0xffff {
        3
    } else {
        4
    }
}

/// Number of bytes in the UTF-8 encoding of a text.
pub open spec fn byte_len(s: Seq<char>) -> nat
    decreases s.len(),
{
    if s.len() == 0 {
        0
    } else {
        byte_len(s.drop_last()) + width(s.last())
    }
}

/// Byte offset at which the first `k` characters of `s` end.
pub open spec fn offset(s: Seq<char>, k: int) -> int {
    byte_len(s.take(k)) as int
}

/// Whether byte offset `b` lies between two characters of `s`, or at an end.
pub open spec fn is_boundary(s: Seq<char>, b: int) -> bool {
    exists|k: int| 0 <= k <= s.len() && #[trigger] offset(s, k) == b
}

/// Number of characters of `s` before the boundary `b`.
pub open spec fn index_at(s: Seq<char>, b: int) -> int {
    choose|k: int| 0 <= k <= s.len() && #[trigger] offset(s, k) == b
}

/// The smaller of two integers.
pub open spec fn min(a: int, b: int) -> int {
    if a <= b {
        a
    } else {
        b
    }
}

/// The larger of two integers.
pub open spec fn max(a: int, b: int) -> int {
    if a <= b {
        b
    } else {
        a
    }
}

/// Number of occurrences of `c` in `s`.
pub open spec fn count_char(s: Seq<char>, c: char) -> nat
    decreases s.len(),
{
    if s.len() == 0 {
        0
    } else {
        count_char(s.drop_last(), c) + if s.last() == c {
            1nat
        } else {
            0nat
        }
    }
}

/// A length or offset of a concatenation is the sum over its parts.
pub proof fn lemma_byte_len_add(a: Seq<char>, b: Seq<char>)
    ensures
        byte_len(a + b) == byte_len(a) + byte_len(b),
    decreases b.len(),
{
    if b.len() == 0 {
        assert(a + b =~= a);
    } else {
        assert((a + b).drop_last() =~= a + b.drop_last());
        lemma_byte_len_add(a, b.drop_last());
    }
}

pub proof fn lemma_offset_step(s: Seq<char>, k: int)
    requires
        0 <= k < s.len(),
    ensures
        offset(s, k + 1) == offset(s, k) + width(s[k]),
{
    assert(s.take(k + 1).drop_last() =~= s.take(k));
}

pub proof fn lemma_offset_mono(s: Seq<char>, j: int, k: int)
    requires
        0 <= j <= k <= s.len(),
    ensures
        offset(s, k) - offset(s, j) >= k - j,
        offset(s, k) - offset(s, j) <= 4 * (k - j),
    decreases k - j,
{
    if j < k {
        lemma_offset_step(s, k - 1);
        lemma_offset_mono(s, j, k - 1);
    }
}

pub proof fn lemma_offset_ends(s: Seq<char>)
    ensures
        offset(s, 0) == 0,
        offset(s, s.len() as int) == byte_len(s),
        s.len() <= byte_len(s) <= 4 * s.len(),
{
    assert(s.take(s.len() as int) =~= s);
    assert(s.take(0).len() == 0);
    lemma_offset_mono(s, 0, s.len() as int);
}

/// The boundary after `k` characters has exactly that index.
pub proof fn lemma_index_at(s: Seq<char>, k: int)
    requires
        0 <= k <= s.len(),
    ensures
        is_boundary(s, offset(s, k)),
        index_at(s, offset(s, k)) == k,
        0 <= offset(s, k) <= byte_len(s),
{
    let b = offset(s, k);
    let j = index_at(s, b);
    assert(0 <= j <= s.len() && offset(s, j) == b);
    if j < k {
        lemma_offset_mono(s, j, k);
    } else {
        lemma_offset_mono(s, k, j);
    }
    lemma_offset_ends(s);
    lemma_offset_mono(s, 0, k);
    lemma_offset_mono(s, k, s.len() as int);
}

/// A boundary is the offset of its index.
pub proof fn lemma_boundary(s: Seq<char>, b: int)
    requires
        is_boundary(s, b),
    ensures
        0 <= index_at(s, b) <= s.len(),
        offset(s, index_at(s, b)) == b,
        0 <= b <= byte_len(s),
{
    lemma_index_at(s, index_at(s, b));
}

/// Both ends of a text are boundaries.
pub proof fn lemma_boundary_ends(s: Seq<char>)
    ensures
        is_boundary(s, 0),
        index_at(s, 0) == 0,
        is_boundary(s, byte_len(s) as int),
        index_at(s, byte_len(s) as int) == s.len(),
{
    lemma_offset_ends(s);
    lemma_index_at(s, 0);
    lemma_index_at(s, s.len() as int);
}

/// Offsets in a concatenation.
pub proof fn lemma_offset_add(a: Seq<char>, b: Seq<char>, k: int)
    requires
        0 <= k <= b.len(),
    ensures
        offset(a + b, a.len() + k) == byte_len(a) + offset(b, k),
{
    assert((a + b).take(a.len() + k) =~= a + b.take(k));
    lemma_byte_len_add(a, b.take(k));
}

pub proof fn lemma_encode_len(s: Seq<char>)
    ensures
        encode_utf8(s).len() == byte_len(s),
    decreases s.len(),
{
    if s.len() > 0 {
        let head = seq![s[0]];
        let rest = s.drop_first();
        lemma_encode_len(rest);
        assert(s =~= head + rest);
        lemma_byte_len_add(head, rest);
        lemma_single(s[0]);
    }
}

/// A single character takes its width, in the model and in the encoding.
pub proof fn lemma_single(c: char)
    ensures
        byte_len(seq![c]) == width(c),
        encode_scalar(c as u32).len() == width(c),
{
    reveal_with_fuel(byte_len, 2);
    vstd::utf8::char_is_scalar(c);
}

/// The boundaries of the model are those of the encoding.
pub proof fn lemma_encode_boundary(s: Seq<char>, b: int)
    ensures
        vstd::utf8::is_char_boundary(encode_utf8(s), b) <==> is_boundary(s, b),
    decreases s.len(),
{
    let bytes = encode_utf8(s);
    encode_utf8_valid_utf8(s);
    lemma_encode_len(s);
    lemma_boundary_ends(s);
    if is_boundary(s, b) {
        lemma_boundary(s, b);
    }
    if 0 < b <= byte_len(s) {
        assert(s.len() > 0);
        let head = seq![s[0]];
        let rest = s.drop_first();
        encode_utf8_first_scalar(s);
        lemma_single(s[0]);
        assert(pop_first_scalar(bytes) =~= encode_utf8(rest));
        lemma_encode_boundary(rest, b - width(s[0]));
        assert(s =~= head + rest);
        if is_boundary(s, b) {
            let k = index_at(s, b);
            if k == 0 {
                lemma_offset_ends(s);
            }
            lemma_offset_add(head, rest, k - 1);
            lemma_index_at(rest, k - 1);
        }
        if is_boundary(rest, b - width(s[0])) {
            lemma_boundary(rest, b - width(s[0]));
            let k = index_at(rest, b - width(s[0]));
            lemma_offset_add(head, rest, k);
            lemma_index_at(s, k + 1);
        }
    }
}

pub proof fn lemma_count_add(a: Seq<char>, b: Seq<char>, c: char)
    ensures
        count_char(a + b, c) == count_char(a, c) + count_char(b, c),
    decreases b.len(),
{
    if b.len() == 0 {
        assert(a + b =~= a);
    } else {
        assert((a + b).drop_last() =~= a + b.drop_last());
        lemma_count_add(a, b.drop_last(), c);
    }
}

/// Number of bytes that `c` takes in UTF-8.
pub fn char_width(c: char) -> (n: usize)
    ensures
        n == width(c),
        1 <= n <= 4,
{
    let u: u32 = c as u32;
    if u <= 0x7f {
        1
    } else if u <= 0x7ff {
        2
    } else if u <= 0xffff {
        3
    } else {
        4
    }
}

/// Byte length of a text.
pub fn text_len(text: &str) -> (n: usize)
    ensures
        n == byte_len(text@),
{
    let bytes = text.as_bytes();
    proof {
        lemma_encode_len(text@);
    }
    bytes.len()
}

/// The characters of a text.
pub fn to_chars(text: &str) -> (chars: Vec<char>)
    ensures
        chars@ == text@,
        byte_len(chars@) <= usize::MAX,
{
    let n: usize = text_len(text);
    let mut chars: Vec<char> = Vec::new();
    for c in it: text.chars()
        invariant
            it.seq() == text@,
            chars@ == it.seq().take(it.index() as int),
    {
        chars.push(c);
        assert(it.seq().take(it.index() + 1) =~= it.seq().take(it.index() as int).push(c));
    }
    assert(text@.take(text@.len() as int) =~= text@);
    chars
}

/// `String::push`: appends one character to the end of the string.
#[verifier::external_body]
pub(crate) fn push_char(s: &mut String, c: char)
    ensures
        final(s)@ == old(s)@.push(c),
{
    s.push(c)
}

/// Appends a whole text to the end of the string.
pub(crate) fn push_text(s: &mut String, t: &str)
    ensures
        final(s)@ == old(s)@ + t@,
{
    s.append(t);
}

/// The text made of the characters `from..to` of `chars`.
pub fn from_range(chars: &Vec<char>, from: usize, to: usize) -> (s: String)
    requires
        from <= to <= chars@.len(),
    ensures
        s@ == chars@.subrange(from as int, to as int),
{
    let mut s = String::new();
    let mut i: usize = from;
    while i < to
        invariant
            from <= i <= to <= chars@.len(),
            s@ == chars@.subrange(from as int, i as int),
        decreases to - i,
    {
        push_char(&mut s, chars[i]);
        i = i + 1;
        assert(chars@.subrange(from as int, i as int) =~= chars@.subrange(from as int, i - 1).push(chars@[i - 1]));
    }
    s
}

/// The text made of all of `chars`.
pub fn from_chars(chars: &Vec<char>) -> (s: String)
    ensures
        s@ == chars@,
{
    let s = from_range(chars, 0, chars.len());
    assert(chars@.subrange(0, chars@.len() as int) =~= chars@);
    s
}

/// Byte offset at which the first `k` characters end.
pub fn byte_offset(chars: &Vec<char>, k: usize) -> (b: usize)
    requires
        k <= chars@.len(),
        byte_len(chars@) <= usize::MAX,
    ensures
        b == offset(chars@, k as int),
{
    let mut b: usize = 0;
    let mut i: usize = 0;
    proof {
        lemma_offset_ends(chars@);
    }
    while i < k
        invariant
            i <= k <= chars@.len(),
            byte_len(chars@) <= usize::MAX,
            b == offset(chars@, i as int),
        decreases k - i,
    {
        proof {
            lemma_offset_step(chars@, i as int);
            lemma_index_at(chars@, i + 1);
        }
        b = b + char_width(chars[i]);
        i = i + 1;
    }
    b
}

/// Number of characters before byte offset `cursor`, if it is a boundary.
pub fn char_index(chars: &Vec<char>, cursor: usize) -> (r: Option<usize>)
    requires
        byte_len(chars@) <= usize::MAX,
    ensures
        r is Some <==> is_boundary(chars@, cursor as int),
        r matches Some(k) ==> k == index_at(chars@, cursor as int) && k <= chars@.len()
            && offset(chars@, k as int) == cursor,
{
    let mut b: usize = 0;
    let mut i: usize = 0;
    proof {
        lemma_offset_ends(chars@);
    }
    while i < chars.len() && b < cursor
        invariant
            i <= chars@.len(),
            byte_len(chars@) <= usize::MAX,
            b == offset(chars@, i as int),
            i == 0 || offset(chars@, i - 1) < cursor,
        decreases chars@.len() - i,
    {
        proof {
            lemma_offset_step(chars@, i as int);
            lemma_index_at(chars@, i + 1);
        }
        b = b + char_width(chars[i]);
        i = i + 1;
    }
    if b == cursor {
        proof {
            lemma_index_at(chars@, i as int);
        }
        Some(i)
    } else {
        proof {
            if is_boundary(chars@, cursor as int) {
                lemma_boundary(chars@, cursor as int);
                let k = index_at(chars@, cursor as int);
                if k < i {
                    lemma_offset_mono(chars@, k, i - 1);
                } else {
                    lemma_offset_mono(chars@, i as int, k);
                }
            }
        }
        None
    }
}

} // verus!
