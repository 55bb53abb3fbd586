//! One-line text fields.

use crate::chars::{char_classes, class_of, classes_of, whitespace, CharClass};
use crate::edit::{caret_at, caret_of, cut_range, insert_at, store, Caret};
use crate::editor::{
    caret, caret_index, caret_ok, next_char_boundary, prev_char_boundary, prev_word_boundary,
    run_end, word_left, word_left_index,
};
use crate::keys::{KeyCode, KeyEvent, KeyModifiers};
use crate::text::{byte_len, byte_offset, index_at, is_boundary, offset, text_len, to_chars};
use vstd::prelude::*;

verus! {

/// The character that a key types. A terminal may report a question mark as the
/// slash key with shift.
pub open spec fn typed_char(c: char, modifiers: KeyModifiers) -> char {
    if c == '/' && modifiers.shift {
        '?'
    } else {
        c
    }
}

/// The character that a key types.
pub fn text_input_char(c: char, modifiers: KeyModifiers) -> (r: char)
    ensures
        r == typed_char(c, modifiers),
{
    if c == '/' && modifiers.shift {
        '?'
    } else {
        c
    }
}

/// The last boundary before `b`, or the start.
pub open spec fn boundary_before(s: Seq<char>, b: int) -> int
    decreases b,
{
    if b <= 1 {
        0
    } else if is_boundary(s, b - 1) {
        b - 1
    } else {
        boundary_before(s, b - 1)
    }
}

/// The first boundary behind `b`, or the end.
pub open spec fn boundary_behind(s: Seq<char>, b: int) -> int
    decreases byte_len(s) - b,
{
    if b >= byte_len(s) {
        byte_len(s) as int
    } else if is_boundary(s, b + 1) {
        b + 1
    } else {
        boundary_behind(s, b + 1)
    }
}

proof fn lemma_boundary_before(s: Seq<char>, b: int, r: int)
    requires
        0 <= r < b,
        is_boundary(s, r),
        forall|x: int| r < x < b ==> !is_boundary(s, x),
    ensures
        boundary_before(s, b) == r,
    decreases b,
{
    if b > 1 && r != b - 1 {
        assert(!is_boundary(s, b - 1));
        lemma_boundary_before(s, b - 1, r);
    }
}

proof fn lemma_boundary_behind(s: Seq<char>, b: int, r: int)
    requires
        0 <= b < r <= byte_len(s),
        is_boundary(s, r),
        forall|x: int| b < x < r ==> !is_boundary(s, x),
    ensures
        boundary_behind(s, b) == r,
    decreases byte_len(s) - b,
{
    if r != b + 1 {
        assert(!is_boundary(s, b + 1));
        lemma_boundary_behind(s, b + 1, r);
    }
}

/// End of the word at position `k`, or of the white space there.
pub open spec fn word_end(cl: Seq<CharClass>, k: int) -> int {
    if k >= cl.len() {
        cl.len() as int
    } else {
        run_end(cl, k, cl[k])
    }
}

fn word_end_index(cl: &Vec<CharClass>, at: usize) -> (r: usize)
    requires
        at <= cl@.len(),
    ensures
        r == word_end(cl@, at as int),
        at <= r <= cl@.len(),
{
    if at >= cl.len() {
        return cl.len();
    }
    let c = cl[at];
    let mut k: usize = at;
    while k < cl.len() && cl[k] == c
        invariant
            at <= k <= cl@.len(),
            run_end(cl@, at as int, c) == run_end(cl@, k as int, c),
        decreases cl@.len() - k,
    {
        k = k + 1;
    }
    k
}

/// The text and the caret of a field after a key.
pub open spec fn field_after(text: Seq<char>, cursor: int, key: KeyEvent) -> (Seq<char>, int) {
    let c = caret_of(text, cursor);
    let control = key.modifiers.control;
    match key.code {
        KeyCode::Char(ch) => with_offset(c.typed(typed_char(ch, key.modifiers))),
        KeyCode::Backspace => if cursor > 0 {
            with_offset(
                c.cut(
                    if control {
                        word_left(classes_of(text), c.at)
                    } else {
                        c.at - 1
                    },
                    c.at,
                ),
            )
        } else {
            (text, cursor)
        },
        KeyCode::Delete => if cursor < byte_len(text) {
            with_offset(
                c.cut(
                    c.at,
                    if control {
                        word_end(classes_of(text), c.at)
                    } else {
                        c.at + 1
                    },
                ),
            )
        } else {
            (text, cursor)
        },
        KeyCode::Left => if control {
            (text, offset(text, word_left(classes_of(text), caret(text, cursor))))
        } else {
            (text, boundary_before(text, cursor))
        },
        KeyCode::Right => if control {
            (text, offset(text, word_end(classes_of(text), caret(text, cursor))))
        } else if cursor < byte_len(text) {
            (text, boundary_behind(text, cursor))
        } else {
            (text, cursor)
        },
        KeyCode::Home => (text, 0),
        KeyCode::End => (text, byte_len(text) as int),
        _ => (text, cursor),
    }
}

/// The text of a caret, and the place of the caret in bytes.
pub open spec fn with_offset(c: Caret) -> (Seq<char>, int) {
    (c.text, offset(c.text, c.at))
}

/// Whether a key takes something out of a field or puts something in.
pub open spec fn field_changes(text: Seq<char>, cursor: int, key: KeyEvent) -> bool {
    match key.code {
        KeyCode::Char(_) => true,
        KeyCode::Backspace => cursor > 0,
        KeyCode::Delete => cursor < byte_len(text),
        _ => false,
    }
}

/// Whether the caret lies where a key needs it: between two characters, for a key
/// that takes the text apart there.
pub open spec fn field_ready(text: Seq<char>, cursor: int, key: KeyEvent) -> bool {
    &&& field_changes(text, cursor, key) ==> is_boundary(text, cursor)
    &&& (key.code == KeyCode::Left || key.code == KeyCode::Right) && key.modifiers.control
        ==> caret_ok(text, cursor)
}

/// A field whose caret lies between two characters is ready for every key, and
/// stays so.
pub proof fn lemma_field_stays_ready(text: Seq<char>, cursor: int, key: KeyEvent)
    requires
        is_boundary(text, cursor),
    ensures
        field_ready(text, cursor, key),
        ({
            let (t, c) = field_after(text, cursor, key);
            is_boundary(t, c)
        }),
{
    crate::text::lemma_boundary(text, cursor);
    crate::text::lemma_boundary_ends(text);
    let c = caret_of(text, cursor);
    let cl = classes_of(text);
    crate::editor::lemma_word_motion(cl, c.at);
    lemma_word_end(cl, c.at);
    crate::text::lemma_offset_ends(text);
    match key.code {
        KeyCode::Char(ch) => {
            let d = c.typed(typed_char(ch, key.modifiers));
            crate::text::lemma_index_at(d.text, d.at);
        },
        KeyCode::Backspace => {
            if cursor > 0 {
                let from = if key.modifiers.control {
                    word_left(cl, c.at)
                } else {
                    c.at - 1
                };
                crate::text::lemma_index_at(c.cut(from, c.at).text, from);
            }
        },
        KeyCode::Delete => {
            if cursor < byte_len(text) {
                let to = if key.modifiers.control {
                    word_end(cl, c.at)
                } else {
                    c.at + 1
                };
                crate::text::lemma_index_at(c.cut(c.at, to).text, c.at);
            }
        },
        KeyCode::Left => {
            crate::text::lemma_index_at(text, word_left(cl, c.at));
            lemma_boundary_before_ok(text, cursor);
        },
        KeyCode::Right => {
            crate::text::lemma_index_at(text, word_end(cl, c.at));
            lemma_boundary_behind_ok(text, cursor);
        },
        _ => {},
    }
}

proof fn lemma_word_end(cl: Seq<CharClass>, k: int)
    requires
        0 <= k <= cl.len(),
    ensures
        k <= word_end(cl, k) <= cl.len(),
{
    if k < cl.len() {
        lemma_run_within(cl, k, cl[k]);
    }
}

proof fn lemma_run_within(cl: Seq<CharClass>, k: int, c: CharClass)
    requires
        0 <= k <= cl.len(),
    ensures
        k <= run_end(cl, k, c) <= cl.len(),
    decreases cl.len() - k,
{
    if k < cl.len() && cl[k] == c {
        lemma_run_within(cl, k + 1, c);
    }
}

proof fn lemma_boundary_before_ok(s: Seq<char>, b: int)
    ensures
        is_boundary(s, boundary_before(s, b)),
    decreases b,
{
    crate::text::lemma_boundary_ends(s);
    if b > 1 && !is_boundary(s, b - 1) {
        lemma_boundary_before_ok(s, b - 1);
    }
}

proof fn lemma_boundary_behind_ok(s: Seq<char>, b: int)
    ensures
        is_boundary(s, boundary_behind(s, b)),
    decreases byte_len(s) - b,
{
    crate::text::lemma_boundary_ends(s);
    if b < byte_len(s) && !is_boundary(s, b + 1) {
        lemma_boundary_behind_ok(s, b + 1);
    }
}

/// Applies a key to a field, and tells whether something was taken out or put in.
pub fn edit_field(text: &mut String, cursor: &mut usize, key: KeyEvent) -> (changed: bool)
    requires
        field_ready(old(text)@, *old(cursor) as int, key),
    ensures
        (final(text)@, *final(cursor) as int) == field_after(
            old(text)@,
            *old(cursor) as int,
            key,
        ),
        changed == field_changes(old(text)@, *old(cursor) as int, key),
{
    let control: bool = key.modifiers.control;
    match key.code {
        KeyCode::Char(ch) => {
            let mut chars = to_chars(text.as_str());
            let at: usize = caret_at(&chars, *cursor);
            let next: usize = insert_at(&mut chars, at, text_input_char(ch, key.modifiers));
            store(text, cursor, &chars, next);
            true
        },
        KeyCode::Backspace => {
            if *cursor > 0 {
                let mut chars = to_chars(text.as_str());
                let at: usize = caret_at(&chars, *cursor);
                proof {
                    crate::text::lemma_offset_ends(text@);
                }
                let from: usize = if control {
                    let classes = char_classes(&chars);
                    word_left_index(&classes, at)
                } else {
                    at - 1
                };
                cut_range(&mut chars, from, at);
                store(text, cursor, &chars, from);
                true
            } else {
                false
            }
        },
        KeyCode::Delete => {
            let len: usize = text_len(text.as_str());
            if *cursor < len {
                let mut chars = to_chars(text.as_str());
                let at: usize = caret_at(&chars, *cursor);
                proof {
                    crate::text::lemma_offset_ends(text@);
                }
                let to: usize = if control {
                    let classes = char_classes(&chars);
                    word_end_index(&classes, at)
                } else {
                    at + 1
                };
                cut_range(&mut chars, at, to);
                store(text, cursor, &chars, at);
                true
            } else {
                false
            }
        },
        KeyCode::Left => {
            if control {
                *cursor = prev_word_boundary(text.as_str(), *cursor);
            } else if *cursor > 0 {
                let to: usize = prev_char_boundary(text.as_str(), *cursor);
                proof {
                    lemma_boundary_before(text@, *cursor as int, to as int);
                }
                *cursor = to;
            }
            false
        },
        KeyCode::Right => {
            if control {
                let chars = to_chars(text.as_str());
                let at: usize = caret_index(&chars, *cursor);
                let classes = char_classes(&chars);
                let to: usize = word_end_index(&classes, at);
                *cursor = byte_offset(&chars, to);
            } else {
                let len: usize = text_len(text.as_str());
                if *cursor < len {
                    let to: usize = next_char_boundary(text.as_str(), *cursor);
                    proof {
                        crate::text::lemma_boundary(text@, to as int);
                        lemma_boundary_behind(text@, *cursor as int, to as int);
                    }
                    *cursor = to;
                }
            }
            false
        },
        KeyCode::Home => {
            *cursor = 0;
            false
        },
        KeyCode::End => {
            *cursor = text_len(text.as_str());
            false
        },
        _ => false,
    }
}

pub(crate) proof fn lemma_caret_between(a: Seq<char>, b: Seq<char>)
    ensures
        offset(a + b, a.len() as int) == byte_len(a),
        index_at(a + b, byte_len(a) as int) == a.len(),
        caret(a + b, byte_len(a) as int) == a.len(),
        is_boundary(a + b, byte_len(a) as int),
        byte_len(a + b) == byte_len(a) + byte_len(b),
{
    assert((a + b).take(a.len() as int) =~= a);
    crate::text::lemma_index_at(a + b, a.len() as int);
    crate::text::lemma_byte_len_add(a, b);
}

/// A character is typed at the caret, which goes behind it. A slash with shift is a
/// question mark.
pub proof fn lemma_field_takes_characters(a: Seq<char>, b: Seq<char>, ch: char, key: KeyEvent)
    requires
        key.code == KeyCode::Char(ch),
    ensures
        ({
            let typed = if ch == '/' && key.modifiers.shift {
                '?'
            } else {
                ch
            };
            field_after(a + b, byte_len(a) as int, key) == (
                a.push(typed) + b,
                byte_len(a.push(typed)) as int,
            )
        }),
{
    let typed = typed_char(ch, key.modifiers);
    lemma_caret_between(a, b);
    assert((a + b).insert(a.len() as int, typed) =~= a.push(typed) + b);
    lemma_caret_between(a.push(typed), b);
}

/// Backspace and Delete take out the character before and behind the caret. At the ends
/// of the text they do nothing.
pub proof fn lemma_field_gives_characters(a: Seq<char>, x: char, b: Seq<char>, key: KeyEvent)
    requires
        !key.modifiers.control,
    ensures
        key.code == KeyCode::Backspace ==> field_after(
            a.push(x) + b,
            byte_len(a.push(x)) as int,
            key,
        ) == (a + b, byte_len(a) as int),
        key.code == KeyCode::Delete ==> field_after(a.push(x) + b, byte_len(a) as int, key) == (
            a + b,
            byte_len(a) as int,
        ),
        key.code == KeyCode::Backspace ==> field_after(b, 0, key) == (b, 0int),
        key.code == KeyCode::Delete ==> field_after(a, byte_len(a) as int, key) == (
            a,
            byte_len(a) as int,
        ),
{
    let t = a.push(x) + b;
    let n = a.len() as int;
    lemma_caret_between(a.push(x), b);
    lemma_caret_between(a, seq![x] + b);
    assert(a + (seq![x] + b) =~= t);
    assert(t.take(n) =~= a);
    assert(t.skip(n + 1) =~= b);
    lemma_caret_between(a, b);
    crate::text::lemma_byte_len_add(a, seq![x]);
    assert(a + seq![x] =~= a.push(x));
    crate::text::lemma_single(x);
}

/// With Control, Backspace takes out the word before the caret and the white space
/// between them, and Delete takes out the word or the white space behind the caret.
pub proof fn lemma_field_gives_words(
    a: Seq<char>,
    word: Seq<char>,
    gap: Seq<char>,
    b: Seq<char>,
    key: KeyEvent,
)
    requires
        key.modifiers.control,
        word.len() > 0,
        forall|i: int| 0 <= i < word.len() ==> class_of(#[trigger] word[i]) == class_of(word[0]),
        forall|i: int| 0 <= i < gap.len() ==> whitespace(#[trigger] gap[i]),
    ensures
        key.code == KeyCode::Backspace && !whitespace(word[0]) && (a.len() > 0 ==> class_of(
            a.last(),
        ) != class_of(word[0])) ==> field_after(
            a + word + gap + b,
            byte_len(a + word + gap) as int,
            key,
        ) == (a + b, byte_len(a) as int),
        key.code == KeyCode::Delete && (b.len() > 0 ==> class_of(b[0]) != class_of(word[0]))
            ==> field_after(a + word + b, byte_len(a) as int, key) == (a + b, byte_len(a) as int),
{
    lemma_caret_between(a, b);
    let t = a + word + gap + b;
    let n = a.len() as int;
    let e = n + word.len() + gap.len();
    if key.code == KeyCode::Backspace && !whitespace(word[0]) && (a.len() > 0 ==> class_of(a.last())
        != class_of(word[0])) {
        lemma_caret_between(a + word + gap, b);
        crate::text::lemma_byte_len_add(a + word, gap);
        crate::text::lemma_byte_len_add(a, word);
        lemma_some_bytes(word);
        let left = KeyEvent { code: KeyCode::Left, ..key };
        crate::edit::lemma_word_left_passes_a_word(a, word, gap, b, left);
        assert(t.take(n) =~= a);
        assert(t.skip(e) =~= b);
    }
    let s = a + word + b;
    let m = n + word.len();
    if key.code == KeyCode::Delete && (b.len() > 0 ==> class_of(b[0]) != class_of(word[0])) {
        lemma_caret_between(a, word + b);
        assert(a + (word + b) =~= s);
        crate::text::lemma_byte_len_add(word, b);
        lemma_some_bytes(word);
        let cl = classes_of(s);
        assert forall|i: int| n <= i < m implies cl[i] == class_of(word[0]) by {
            assert(s[i] == word[i - n]);
        }
        if m < s.len() {
            assert(s[m] == b[0]);
        }
        assert(s[n] == word[0]);
        crate::edit::lemma_run_end_is(cl, n, m, class_of(word[0]));
        assert(s.take(n) =~= a);
        assert(s.skip(m) =~= b);
    }
}

proof fn lemma_some_bytes(s: Seq<char>)
    requires
        s.len() > 0,
    ensures
        byte_len(s) > 0,
{
}

/// Left and Right go over one character, Home goes to the start and End to the end. The
/// text stays as it is.
pub proof fn lemma_field_caret_moves(a: Seq<char>, x: char, b: Seq<char>, key: KeyEvent)
    requires
        !key.modifiers.control,
    ensures
        ({
            let t = a.push(x) + b;
            &&& key.code == KeyCode::Left ==> field_after(t, byte_len(a.push(x)) as int, key) == (
                t,
                byte_len(a) as int,
            )
            &&& key.code == KeyCode::Right ==> field_after(t, byte_len(a) as int, key) == (
                t,
                byte_len(a.push(x)) as int,
            )
            &&& key.code == KeyCode::Left ==> field_after(t, 0, key) == (t, 0int)
            &&& key.code == KeyCode::Right ==> field_after(t, byte_len(t) as int, key) == (
                t,
                byte_len(t) as int,
            )
            &&& key.code == KeyCode::Home ==> field_after(t, byte_len(a) as int, key) == (t, 0int)
            &&& key.code == KeyCode::End ==> field_after(t, byte_len(a) as int, key) == (
                t,
                byte_len(t) as int,
            )
        }),
{
    let t = a.push(x) + b;
    let n = a.len() as int;
    lemma_caret_between(a.push(x), b);
    lemma_caret_between(a, seq![x] + b);
    assert(a + (seq![x] + b) =~= t);
    assert(a.push(x).drop_last() =~= a);
    let p = byte_len(a) as int;
    let q = byte_len(a.push(x)) as int;
    assert(p < q <= byte_len(t));
    assert forall|m: int| p < m < q implies !is_boundary(t, m) by {
        if is_boundary(t, m) {
            let k = choose|k: int| 0 <= k <= t.len() && #[trigger] offset(t, k) == m;
            if k <= n {
                crate::text::lemma_offset_mono(t, k, n);
            } else {
                crate::text::lemma_offset_mono(t, n + 1, k);
            }
        }
    }
    lemma_boundary_before_is(t, p, q);
    lemma_boundary_behind_is(t, p, q);
}

proof fn lemma_boundary_before_is(s: Seq<char>, p: int, b: int)
    requires
        0 <= p < b,
        is_boundary(s, p),
        forall|m: int| p < m < b ==> !is_boundary(s, m),
    ensures
        boundary_before(s, b) == p,
    decreases b,
{
    if b > 1 && p < b - 1 {
        lemma_boundary_before_is(s, p, b - 1);
    }
}

proof fn lemma_boundary_behind_is(s: Seq<char>, b: int, q: int)
    requires
        0 <= b < q <= byte_len(s),
        is_boundary(s, q),
        forall|m: int| b < m < q ==> !is_boundary(s, m),
    ensures
        boundary_behind(s, b) == q,
    decreases q - b,
{
    if b + 1 < q {
        lemma_boundary_behind_is(s, b + 1, q);
    }
}

} // verus!
