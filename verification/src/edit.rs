//! Editing a text under a caret with single keys.

use crate::chars::{char_classes, class_of, classes_of, whitespace, CharClass};
use crate::editor::{
    line_end, line_end_index, line_start, line_start_index, run_end, run_start, word_left,
    word_left_index, word_right, word_right_index,
};
use crate::keys::{KeyCode, KeyEvent};
use crate::text::{
    byte_len, byte_offset, char_index, from_chars, index_at, is_boundary, min, offset, text_len,
    to_chars,
};
use vstd::prelude::*;

verus! {

/// A text and the number of its characters before the caret.
#[verifier::ext_equal]
pub struct Caret {
    pub text: Seq<char>,
    pub at: int,
}

impl Caret {
    /// Whether the caret lies in the text.
    pub open spec fn valid(self) -> bool {
        0 <= self.at <= self.text.len()
    }

    /// The same text with the caret elsewhere.
    pub open spec fn moved(self, at: int) -> Caret {
        Caret { text: self.text, at }
    }

    /// `c` typed at the caret.
    pub open spec fn typed(self, c: char) -> Caret {
        Caret { text: self.text.insert(self.at, c), at: self.at + 1 }
    }

    /// The characters `from..to` taken out, with the caret where they were.
    pub open spec fn cut(self, from: int, to: int) -> Caret {
        Caret { text: self.text.take(from) + self.text.skip(to), at: from }
    }

    /// The character before the caret taken out.
    pub open spec fn erased(self) -> Caret {
        if self.at > 0 {
            self.cut(self.at - 1, self.at)
        } else {
            self
        }
    }

    /// The character behind the caret taken out.
    pub open spec fn deleted(self) -> Caret {
        if self.at < self.text.len() {
            self.cut(self.at, self.at + 1)
        } else {
            self
        }
    }
}

/// The caret that a byte cursor stands for.
pub open spec fn caret_of(text: Seq<char>, cursor: int) -> Caret {
    Caret { text, at: index_at(text, cursor) }
}

/// The most characters of `s`, at most `k`, that fit into `b` bytes.
pub open spec fn floor_index(s: Seq<char>, k: int, b: int) -> int
    decreases k,
{
    if k > 0 && offset(s, k) > b {
        floor_index(s, k - 1, b)
    } else {
        k
    }
}

/// Caret at byte column `col` of the line `start..end`, or at its end, and
/// never inside a character.
pub open spec fn at_byte_column(s: Seq<char>, start: int, end: int, col: int) -> int {
    floor_index(s, end, offset(s, start) + min(col, offset(s, end) - offset(s, start)))
}

/// Byte column of the caret before character `k`.
pub open spec fn byte_column(s: Seq<char>, k: int) -> int {
    offset(s, k) - offset(s, line_start(s, k))
}

/// Caret one line up, at the same byte column where that line has it.
pub open spec fn line_up(s: Seq<char>, k: int) -> int {
    let start = line_start(s, k);
    if start > 0 {
        at_byte_column(s, line_start(s, start - 1), start - 1, byte_column(s, k))
    } else {
        k
    }
}

/// Caret one line down, at the same byte column where that line has it.
pub open spec fn line_down(s: Seq<char>, k: int) -> int {
    let end = line_end(s, k);
    if end < s.len() {
        at_byte_column(s, end + 1, line_end(s, end + 1), byte_column(s, k))
    } else {
        k
    }
}

/// What a key does to a text field.
pub open spec fn edited(c: Caret, key: KeyEvent) -> Caret {
    match key.code {
        KeyCode::Left => if key.modifiers.control {
            c.moved(word_left(classes_of(c.text), c.at))
        } else if c.at > 0 {
            c.moved(c.at - 1)
        } else {
            c
        },
        KeyCode::Right => if key.modifiers.control {
            c.moved(word_right(classes_of(c.text), c.at))
        } else if c.at < c.text.len() {
            c.moved(c.at + 1)
        } else {
            c
        },
        KeyCode::Home => c.moved(line_start(c.text, c.at)),
        KeyCode::End => c.moved(line_end(c.text, c.at)),
        KeyCode::Backspace => c.erased(),
        KeyCode::Delete => c.deleted(),
        KeyCode::Up => c.moved(line_up(c.text, c.at)),
        KeyCode::Down => c.moved(line_down(c.text, c.at)),
        KeyCode::Char(ch) => if key.modifiers.control {
            c
        } else {
            c.typed(ch)
        },
        _ => c,
    }
}

/// Whether a key changes the text of a text field.
pub open spec fn edit_changes(c: Caret, key: KeyEvent) -> bool {
    match key.code {
        KeyCode::Backspace => c.at > 0,
        KeyCode::Delete => c.at < c.text.len(),
        KeyCode::Char(_) => !key.modifiers.control,
        _ => false,
    }
}

/// What became of a key in insert mode.
#[derive(Clone, Copy, Debug, PartialEq, Eq, Structural)]
pub enum EditorInsertResult {
    Ignored,
    Moved,
    Changed,
    ExitInsert,
}

/// What a key does to a text in insert mode.
pub open spec fn inserted(c: Caret, key: KeyEvent) -> (Caret, EditorInsertResult) {
    match key.code {
        KeyCode::Esc => (c, EditorInsertResult::ExitInsert),
        KeyCode::Enter => (c.typed('\n'), EditorInsertResult::Changed),
        KeyCode::Tab => (c.typed('\t'), EditorInsertResult::Changed),
        KeyCode::Backspace => if c.at > 0 {
            (c.erased(), EditorInsertResult::Changed)
        } else {
            (c, EditorInsertResult::Ignored)
        },
        KeyCode::Delete => if c.at < c.text.len() {
            (c.deleted(), EditorInsertResult::Changed)
        } else {
            (c, EditorInsertResult::Ignored)
        },
        KeyCode::Left | KeyCode::Right | KeyCode::Up | KeyCode::Down | KeyCode::Home
        | KeyCode::End => (edited(c, key), EditorInsertResult::Moved),
        KeyCode::Char(ch) => if key.modifiers.control || key.modifiers.alt {
            (c, EditorInsertResult::Ignored)
        } else {
            (c.typed(ch), EditorInsertResult::Changed)
        },
        _ => (c, EditorInsertResult::Ignored),
    }
}

pub(crate) proof fn lemma_floor_index(s: Seq<char>, k: int, b: int)
    requires
        0 <= k,
    ensures
        0 <= floor_index(s, k, b) <= k,
    decreases k,
{
    if k > 0 && offset(s, k) > b {
        lemma_floor_index(s, k - 1, b);
    }
}

/// No key moves the caret out of the text.
pub proof fn lemma_edited_valid(c: Caret, key: KeyEvent)
    requires
        c.valid(),
    ensures
        edited(c, key).valid(),
        inserted(c, key).0.valid(),
{
    let s = c.text;
    crate::editor::lemma_word_motion(classes_of(s), c.at);
    crate::editor::lemma_line_start(s, c.at);
    crate::editor::lemma_line_end(s, c.at);
    let start = line_start(s, c.at);
    if start > 0 {
        crate::editor::lemma_line_start(s, start - 1);
        let from = line_start(s, start - 1);
        lemma_floor_index(
            s,
            start - 1,
            offset(s, from) + min(byte_column(s, c.at), offset(s, start - 1) - offset(s, from)),
        );
    }
    let end = line_end(s, c.at);
    if end < s.len() {
        crate::editor::lemma_line_end(s, end + 1);
        let to = line_end(s, end + 1);
        lemma_floor_index(
            s,
            to,
            offset(s, end + 1) + min(byte_column(s, c.at), offset(s, to) - offset(s, end + 1)),
        );
    }
}

/// Keys that do not report a change leave the text as it was.
pub proof fn lemma_unchanged(c: Caret, key: KeyEvent)
    ensures
        !edit_changes(c, key) ==> edited(c, key).text == c.text,
        inserted(c, key).1 != EditorInsertResult::Changed ==> inserted(c, key).0.text == c.text,
{
}

/// Typing a character and erasing it again gives back text and caret.
pub proof fn lemma_type_then_erase(c: Caret, ch: char)
    requires
        c.valid(),
    ensures
        c.typed(ch).erased() == c,
{
    assert(c.typed(ch).erased().text =~= c.text);
}

/// Erasing a character and typing it again gives back text and caret.
pub proof fn lemma_erase_then_type(c: Caret)
    requires
        c.valid(),
        c.at > 0,
    ensures
        c.erased().typed(c.text[c.at - 1]) == c,
{
    assert(c.erased().typed(c.text[c.at - 1]).text =~= c.text);
}

/// The character keys take their character in at the caret, behind what stands before
/// it, and the caret goes behind it. Enter and Tab do so in insert mode.
pub proof fn lemma_typing_takes_in(a: Seq<char>, b: Seq<char>, ch: char, key: KeyEvent)
    requires
        !key.modifiers.control,
        !key.modifiers.alt,
    ensures
        key.code == KeyCode::Char(ch) ==> edited(Caret { text: a + b, at: a.len() as int }, key)
            == (Caret { text: a.push(ch) + b, at: a.len() as int + 1 }),
        key.code == KeyCode::Char(ch) ==> edit_changes(
            Caret { text: a + b, at: a.len() as int },
            key,
        ),
        key.code == KeyCode::Char(ch) || key.code == KeyCode::Enter && ch == '\n' || key.code
            == KeyCode::Tab && ch == '\t' ==> inserted(
            Caret { text: a + b, at: a.len() as int },
            key,
        ) == (Caret { text: a.push(ch) + b, at: a.len() as int + 1 }, EditorInsertResult::Changed),
{
    assert((a + b).insert(a.len() as int, ch) =~= a.push(ch) + b);
}

/// Backspace takes out the character before the caret, and Delete the one behind it.
/// At the ends of the text they do nothing.
pub proof fn lemma_keys_take_out(a: Seq<char>, x: char, b: Seq<char>, key: KeyEvent)
    ensures
        key.code == KeyCode::Backspace ==> {
            let c = Caret { text: a.push(x) + b, at: a.len() as int + 1 };
            let gone = Caret { text: a + b, at: a.len() as int };
            &&& edited(c, key) == gone
            &&& edit_changes(c, key)
            &&& inserted(c, key) == (gone, EditorInsertResult::Changed)
        },
        key.code == KeyCode::Delete ==> {
            let c = Caret { text: a.push(x) + b, at: a.len() as int };
            let gone = Caret { text: a + b, at: a.len() as int };
            &&& edited(c, key) == gone
            &&& edit_changes(c, key)
            &&& inserted(c, key) == (gone, EditorInsertResult::Changed)
        },
        key.code == KeyCode::Backspace ==> {
            let c = Caret { text: a, at: 0 };
            edited(c, key) == c && !edit_changes(c, key) && inserted(c, key) == (
                c,
                EditorInsertResult::Ignored,
            )
        },
        key.code == KeyCode::Delete ==> {
            let c = Caret { text: a, at: a.len() as int };
            edited(c, key) == c && !edit_changes(c, key) && inserted(c, key) == (
                c,
                EditorInsertResult::Ignored,
            )
        },
{
    let t = a.push(x) + b;
    let n = a.len() as int;
    assert(t.take(n) =~= a);
    assert(t.skip(n + 1) =~= b);
}

/// Left and Right move by one character, Home to the start of the line and End to its
/// end. None of them changes the text.
pub proof fn lemma_keys_move_along(
    above: Seq<char>,
    left: Seq<char>,
    right: Seq<char>,
    below: Seq<char>,
    key: KeyEvent,
)
    requires
        above.len() == 0 || above.last() == '\n',
        !left.contains('\n'),
        !right.contains('\n'),
        below.len() == 0 || below[0] == '\n',
        !key.modifiers.control,
    ensures
        ({
            let text = above + left + right + below;
            let at = above.len() + left.len();
            let c = Caret { text, at: at as int };
            let to = edited(c, key);
            &&& key.code == KeyCode::Left ==> to == (Caret {
                text,
                at: if at > 0 {
                    at - 1
                } else {
                    0
                },
            })
            &&& key.code == KeyCode::Right ==> to == (Caret {
                text,
                at: if at < text.len() {
                    at as int + 1
                } else {
                    at as int
                },
            })
            &&& key.code == KeyCode::Home ==> to == (Caret { text, at: above.len() as int })
            &&& key.code == KeyCode::End ==> to == (Caret { text, at: (at + right.len()) as int })
            &&& key.code == KeyCode::Left || key.code == KeyCode::Right || key.code
                == KeyCode::Home || key.code == KeyCode::End ==> inserted(c, key) == (
                to,
                EditorInsertResult::Moved,
            )
        }),
{
    let text = above + left + right + below;
    let at = (above.len() + left.len()) as int;
    assert forall|i: int| above.len() <= i < at + right.len() implies text[i] != '\n' by {
        if i < at {
            assert(text[i] == left[i - above.len()]);
        } else {
            assert(text[i] == right[i - at]);
        }
    }
    lemma_line_start_is(text, above.len() as int, at);
    lemma_line_end_is(text, at, at + right.len());
}

/// With Control, Right goes behind the word at the caret and the white space behind it.
pub proof fn lemma_word_right_passes_a_word(
    a: Seq<char>,
    word: Seq<char>,
    gap: Seq<char>,
    b: Seq<char>,
    key: KeyEvent,
)
    requires
        key.code == KeyCode::Right,
        key.modifiers.control,
        word.len() > 0,
        forall|i: int| 0 <= i < word.len() ==> class_of(#[trigger] word[i]) == class_of(word[0]),
        forall|i: int| 0 <= i < gap.len() ==> whitespace(#[trigger] gap[i]),
        b.len() > 0 ==> !whitespace(b[0]),
        b.len() > 0 && gap.len() == 0 ==> class_of(b[0]) != class_of(word[0]),
    ensures
        ({
            let text = a + word + gap + b;
            edited(Caret { text, at: a.len() as int }, key) == (Caret {
                text,
                at: (a.len() + word.len() + gap.len()) as int,
            })
        }),
{
    let text = a + word + gap + b;
    let cl = classes_of(text);
    let n = a.len() as int;
    let m = n + word.len();
    let e = m + gap.len();
    assert(text[n] == word[0]);
    assert forall|i: int| n <= i < m implies cl[i] == cl[n] by {
        assert(text[i] == word[i - n]);
    }
    assert forall|i: int| m <= i < e implies cl[i] == CharClass::Space by {
        assert(text[i] == gap[i - m]);
    }
    if e < cl.len() {
        assert(text[e] == b[0]);
    }
    if gap.len() > 0 {
        assert(text[m] == gap[0]);
    }
    if cl[n] == CharClass::Space {
        assert(whitespace(word[0]));
        lemma_run_end_is(cl, n, e, CharClass::Space);
        lemma_run_end_is(cl, e, e, CharClass::Space);
    } else {
        lemma_run_end_is(cl, n, m, cl[n]);
        lemma_run_end_is(cl, m, e, CharClass::Space);
    }
}

/// With Control, Left goes to the start of the word before the caret, over the white
/// space between them.
pub proof fn lemma_word_left_passes_a_word(
    a: Seq<char>,
    word: Seq<char>,
    gap: Seq<char>,
    b: Seq<char>,
    key: KeyEvent,
)
    requires
        key.code == KeyCode::Left,
        key.modifiers.control,
        word.len() > 0,
        !whitespace(word[0]),
        forall|i: int| 0 <= i < word.len() ==> class_of(#[trigger] word[i]) == class_of(word[0]),
        forall|i: int| 0 <= i < gap.len() ==> whitespace(#[trigger] gap[i]),
        a.len() > 0 ==> class_of(a.last()) != class_of(word[0]),
    ensures
        ({
            let text = a + word + gap + b;
            edited(Caret { text, at: (a.len() + word.len() + gap.len()) as int }, key) == (Caret {
                text,
                at: a.len() as int,
            })
        }),
{
    let text = a + word + gap + b;
    let cl = classes_of(text);
    let n = a.len() as int;
    let m = n + word.len();
    let e = m + gap.len();
    assert forall|i: int| n <= i < m implies cl[i] == class_of(word[0]) by {
        assert(text[i] == word[i - n]);
    }
    assert forall|i: int| m <= i < e implies cl[i] == CharClass::Space by {
        assert(text[i] == gap[i - m]);
    }
    if n > 0 {
        assert(text[n - 1] == a.last());
    }
    lemma_run_start_is(cl, m, e, CharClass::Space);
    lemma_run_start_is(cl, n, m, class_of(word[0]));
}

/// Up goes to the line above, as far into it as the caret was into its line, counted in
/// bytes, or to its end. On the first line the caret stays.
pub proof fn lemma_up_keeps_the_column(
    before: Seq<char>,
    upper: Seq<char>,
    left: Seq<char>,
    rest: Seq<char>,
    key: KeyEvent,
)
    requires
        key.code == KeyCode::Up,
        before.len() == 0 || before.last() == '\n',
        !upper.contains('\n'),
        !left.contains('\n'),
    ensures
        ({
            let text = before + upper + seq!['\n'] + left + rest;
            let c = Caret { text, at: (before.len() + upper.len() + 1 + left.len()) as int };
            let to = edited(c, key);
            let k = to.at - before.len();
            &&& to.text == text
            &&& 0 <= k <= upper.len()
            &&& byte_len(upper.take(k)) <= byte_len(left)
            &&& k < upper.len() ==> byte_len(upper.take(k + 1)) > byte_len(left)
            &&& inserted(c, key) == (to, EditorInsertResult::Moved)
        }),
        ({
            let c = Caret { text: left + rest, at: left.len() as int };
            edited(c, key) == c
        }),
{
    let text = before + upper + seq!['\n'] + left + rest;
    let p = before.len() as int;
    let e = p + upper.len();
    let at = e + 1 + left.len();
    assert forall|i: int| p <= i < e implies text[i] != '\n' by {
        assert(text[i] == upper[i - p]);
    }
    assert forall|i: int| e + 1 <= i < at implies text[i] != '\n' by {
        assert(text[i] == left[i - e - 1]);
    }
    assert(text[e] == '\n');
    if p > 0 {
        assert(text[p - 1] == before.last());
    }
    lemma_line_start_is(text, e + 1, at);
    lemma_line_start_is(text, p, e);
    lemma_column_in(before, upper, seq!['\n'] + left + rest, byte_len(left) as int);
    assert(before + upper + (seq!['\n'] + left + rest) =~= text);
    lemma_offset_in(before + upper + seq!['\n'], left, rest, left.len() as int);
    lemma_offset_in(before + upper + seq!['\n'], left, rest, 0);
    assert(left.take(left.len() as int) =~= left);
    let t = left + rest;
    assert forall|i: int| 0 <= i < left.len() implies t[i] != '\n' by {
        assert(t[i] == left[i]);
    }
    lemma_line_start_is(t, 0, left.len() as int);
}

/// Down goes to the line below, as far into it as the caret was into its line, counted
/// in bytes, or to its end. On the last line the caret stays.
pub proof fn lemma_down_keeps_the_column(
    before: Seq<char>,
    left: Seq<char>,
    right: Seq<char>,
    lower: Seq<char>,
    rest: Seq<char>,
    key: KeyEvent,
)
    requires
        key.code == KeyCode::Down,
        before.len() == 0 || before.last() == '\n',
        !left.contains('\n'),
        !right.contains('\n'),
        !lower.contains('\n'),
        rest.len() == 0 || rest[0] == '\n',
    ensures
        ({
            let head = before + left + right + seq!['\n'];
            let text = head + lower + rest;
            let c = Caret { text, at: (before.len() + left.len()) as int };
            let to = edited(c, key);
            let k = to.at - head.len();
            &&& to.text == text
            &&& 0 <= k <= lower.len()
            &&& byte_len(lower.take(k)) <= byte_len(left)
            &&& k < lower.len() ==> byte_len(lower.take(k + 1)) > byte_len(left)
            &&& inserted(c, key) == (to, EditorInsertResult::Moved)
        }),
        ({
            let c = Caret { text: before + left + right, at: (before.len() + left.len()) as int };
            edited(c, key) == c
        }),
{
    let head = before + left + right + seq!['\n'];
    let text = head + lower + rest;
    let p = before.len() as int;
    let at = p + left.len();
    let e = at + right.len();
    let f = e + 1 + lower.len();
    assert forall|i: int| p <= i < e implies text[i] != '\n' by {
        if i < at {
            assert(text[i] == left[i - p]);
        } else {
            assert(text[i] == right[i - at]);
        }
    }
    assert(text[e] == '\n');
    assert forall|i: int| e + 1 <= i < f implies text[i] != '\n' by {
        assert(text[i] == lower[i - e - 1]);
    }
    if f < text.len() {
        assert(text[f] == rest[0]);
    }
    if p > 0 {
        assert(text[p - 1] == before.last());
    }
    lemma_line_start_is(text, p, at);
    lemma_line_end_is(text, at, e);
    lemma_line_end_is(text, e + 1, f);
    lemma_column_in(head, lower, rest, byte_len(left) as int);
    lemma_offset_in(before, left, right + seq!['\n'] + lower + rest, left.len() as int);
    lemma_offset_in(before, left, right + seq!['\n'] + lower + rest, 0);
    assert(before + left + (right + seq!['\n'] + lower + rest) =~= text);
    assert(left.take(left.len() as int) =~= left);
    let t = before + left + right;
    assert forall|i: int| at <= i < e implies t[i] != '\n' by {
        assert(t[i] == right[i - at]);
    }
    lemma_line_end_is(t, at, e);
}

pub(crate) proof fn lemma_line_start_is(s: Seq<char>, p: int, k: int)
    requires
        0 <= p <= k <= s.len(),
        p == 0 || s[p - 1] == '\n',
        forall|i: int| p <= i < k ==> s[i] != '\n',
    ensures
        line_start(s, k) == p,
{
    crate::editor::lemma_line_start(s, k);
    let q = line_start(s, k);
    if q < p {
        assert(s[p - 1] != '\n');
    }
    if q > p {
        assert(s[q - 1] == '\n');
    }
}

pub(crate) proof fn lemma_line_end_is(s: Seq<char>, k: int, e: int)
    requires
        0 <= k <= e <= s.len(),
        e == s.len() || s[e] == '\n',
        forall|i: int| k <= i < e ==> s[i] != '\n',
    ensures
        line_end(s, k) == e,
{
    crate::editor::lemma_line_end(s, k);
    let q = line_end(s, k);
    if q < e {
        assert(s[q] == '\n');
    }
    if q > e {
        assert(s[e] != '\n');
    }
}

pub(crate) proof fn lemma_run_end_is(cl: Seq<CharClass>, k: int, e: int, c: CharClass)
    requires
        0 <= k <= e <= cl.len(),
        e == cl.len() || cl[e] != c,
        forall|i: int| k <= i < e ==> cl[i] == c,
    ensures
        run_end(cl, k, c) == e,
    decreases e - k,
{
    if k < e {
        lemma_run_end_is(cl, k + 1, e, c);
    }
}

proof fn lemma_run_start_is(cl: Seq<CharClass>, p: int, k: int, c: CharClass)
    requires
        0 <= p <= k <= cl.len(),
        p == 0 || cl[p - 1] != c,
        forall|i: int| p <= i < k ==> cl[i] == c,
    ensures
        run_start(cl, k, c) == p,
    decreases k - p,
{
    if p < k {
        lemma_run_start_is(cl, p, k - 1, c);
    }
}

proof fn lemma_offset_in(a: Seq<char>, m: Seq<char>, b: Seq<char>, j: int)
    requires
        0 <= j <= m.len(),
    ensures
        offset(a + m + b, a.len() + j) == byte_len(a) + byte_len(m.take(j)),
{
    assert((a + m + b).take(a.len() + j) =~= a + m.take(j));
    crate::text::lemma_byte_len_add(a, m.take(j));
}

proof fn lemma_floor_at(s: Seq<char>, k: int, b: int)
    requires
        0 <= k <= s.len(),
        0 <= b,
    ensures
        0 <= floor_index(s, k, b) <= k,
        offset(s, floor_index(s, k, b)) <= b,
        floor_index(s, k, b) < k ==> offset(s, floor_index(s, k, b) + 1) > b,
    decreases k,
{
    crate::text::lemma_offset_ends(s);
    if k > 0 && offset(s, k) > b {
        lemma_floor_at(s, k - 1, b);
    }
}

/// The caret at a column of a line in a text.
proof fn lemma_column_in(a: Seq<char>, line: Seq<char>, b: Seq<char>, col: int)
    requires
        0 <= col,
    ensures
        ({
            let k = at_byte_column(a + line + b, a.len() as int, (a.len() + line.len()) as int, col)
                - a.len();
            &&& 0 <= k <= line.len()
            &&& byte_len(line.take(k)) <= col
            &&& k < line.len() ==> byte_len(line.take(k + 1)) > col
        }),
{
    let s = a + line + b;
    let p = a.len() as int;
    let e = p + line.len();
    lemma_offset_in(a, line, b, 0);
    lemma_offset_in(a, line, b, line.len() as int);
    assert(line.take(line.len() as int) =~= line);
    let w = offset(s, p) + min(col, offset(s, e) - offset(s, p));
    lemma_floor_at(s, e, w);
    let f = floor_index(s, e, w);
    if f < p {
        crate::text::lemma_offset_mono(s, f + 1, p);
    }
    lemma_offset_in(a, line, b, f - p);
    if f < e {
        crate::text::lemma_offset_mono(s, f + 1, e);
        lemma_offset_in(a, line, b, f + 1 - p);
    }
}

/// In insert mode no key held with control or alt types a character.
pub proof fn lemma_modified_keys_do_not_type(c: Caret, key: KeyEvent, ch: char)
    requires
        key.code == KeyCode::Char(ch),
        key.modifiers.control || key.modifiers.alt,
    ensures
        inserted(c, key) == (c, EditorInsertResult::Ignored),
{
}

/// Puts a text and a caret back as a string and a byte cursor.
pub(crate) fn store(text: &mut String, cursor: &mut usize, chars: &Vec<char>, at: usize)
    requires
        at <= chars@.len(),
    ensures
        final(text)@ == chars@,
        *final(cursor) == offset(chars@, at as int),
        is_boundary(chars@, *final(cursor) as int),
{
    let s = from_chars(chars);
    let n: usize = text_len(s.as_str());
    proof {
        crate::text::lemma_index_at(chars@, at as int);
    }
    *cursor = byte_offset(chars, at);
    *text = s;
}

/// Inserts a character and returns the position behind it.
pub(crate) fn insert_at(chars: &mut Vec<char>, at: usize, c: char) -> (next: usize)
    requires
        at <= old(chars)@.len(),
    ensures
        final(chars)@ == old(chars)@.insert(at as int, c),
        next == at + 1,
{
    chars.insert(at, c);
    let len: usize = chars.len();
    at + 1
}

/// Takes the characters `from..to` out of `chars`.
pub(crate) fn cut_range(chars: &mut Vec<char>, from: usize, to: usize)
    requires
        from <= to <= old(chars)@.len(),
    ensures
        final(chars)@ == old(chars)@.take(from as int) + old(chars)@.skip(to as int),
{
    let mut kept: Vec<char> = Vec::new();
    let mut i: usize = 0;
    let ghost s = chars@;
    while i < from
        invariant
            i <= from <= to <= chars@.len(),
            chars@ == s,
            kept@ == s.take(i as int),
        decreases from - i,
    {
        kept.push(chars[i]);
        i = i + 1;
        assert(s.take(i as int) =~= s.take(i - 1).push(s[i - 1]));
    }
    let mut j: usize = to;
    assert(s.take(from as int) + s.subrange(to as int, to as int) =~= s.take(from as int));
    while j < chars.len()
        invariant
            from <= to <= j <= chars@.len(),
            chars@ == s,
            kept@ == s.take(from as int) + s.subrange(to as int, j as int),
        decreases chars@.len() - j,
    {
        kept.push(chars[j]);
        j = j + 1;
        assert(s.take(from as int) + s.subrange(to as int, j as int) =~= (s.take(from as int)
            + s.subrange(to as int, j - 1)).push(s[j - 1]));
    }
    assert(s.subrange(to as int, s.len() as int) =~= s.skip(to as int));
    *chars = kept;
}

pub(crate) fn floor_at(chars: &Vec<char>, end: usize, b: usize) -> (r: usize)
    requires
        end <= chars@.len(),
        byte_len(chars@) <= usize::MAX,
    ensures
        r == floor_index(chars@, end as int, b as int),
        r <= end,
{
    let mut k: usize = end;
    while k > 0 && byte_offset(chars, k) > b
        invariant
            k <= end <= chars@.len(),
            byte_len(chars@) <= usize::MAX,
            floor_index(chars@, end as int, b as int) == floor_index(chars@, k as int, b as int),
        decreases k,
    {
        k = k - 1;
    }
    k
}

fn byte_column_target(chars: &Vec<char>, start: usize, end: usize, col: usize) -> (r: usize)
    requires
        start <= end <= chars@.len(),
        byte_len(chars@) <= usize::MAX,
    ensures
        r == at_byte_column(chars@, start as int, end as int, col as int),
        r <= end,
{
    let from: usize = byte_offset(chars, start);
    let to: usize = byte_offset(chars, end);
    proof {
        crate::text::lemma_offset_mono(chars@, start as int, end as int);
    }
    let len: usize = to - from;
    let b: usize = if col < len {
        from + col
    } else {
        to
    };
    floor_at(chars, end, b)
}

fn caret_byte_column(chars: &Vec<char>, at: usize) -> (r: usize)
    requires
        at <= chars@.len(),
        byte_len(chars@) <= usize::MAX,
    ensures
        r == byte_column(chars@, at as int),
{
    let start: usize = line_start_index(chars, at);
    proof {
        crate::text::lemma_offset_mono(chars@, start as int, at as int);
    }
    byte_offset(chars, at) - byte_offset(chars, start)
}

/// Caret one line up.
pub(crate) fn line_up_index(chars: &Vec<char>, at: usize) -> (r: usize)
    requires
        at <= chars@.len(),
        byte_len(chars@) <= usize::MAX,
    ensures
        r == line_up(chars@, at as int),
        r <= chars@.len(),
{
    let start: usize = line_start_index(chars, at);
    if start > 0 {
        let from: usize = line_start_index(chars, start - 1);
        let col: usize = caret_byte_column(chars, at);
        byte_column_target(chars, from, start - 1, col)
    } else {
        at
    }
}

/// Caret one line down.
pub(crate) fn line_down_index(chars: &Vec<char>, at: usize) -> (r: usize)
    requires
        at <= chars@.len(),
        byte_len(chars@) <= usize::MAX,
    ensures
        r == line_down(chars@, at as int),
        r <= chars@.len(),
{
    let end: usize = line_end_index(chars, at);
    if end < chars.len() {
        let to: usize = line_end_index(chars, end + 1);
        let col: usize = caret_byte_column(chars, at);
        byte_column_target(chars, end + 1, to, col)
    } else {
        at
    }
}

/// The caret of a byte cursor that lies on a boundary.
pub(crate) fn caret_at(chars: &Vec<char>, cursor: usize) -> (k: usize)
    requires
        byte_len(chars@) <= usize::MAX,
        is_boundary(chars@, cursor as int),
    ensures
        k == index_at(chars@, cursor as int),
        k <= chars@.len(),
        offset(chars@, k as int) == cursor,
{
    match char_index(chars, cursor) {
        Some(k) => k,
        None => 0,
    }
}

/// Applies a key to a text field, and tells whether its text changed.
pub fn edit_text(text: &mut String, cursor: &mut usize, key: KeyEvent) -> (changed: bool)
    requires
        is_boundary(old(text)@, *old(cursor) as int),
    ensures
        ({
            let before = caret_of(old(text)@, *old(cursor) as int);
            let after = edited(before, key);
            &&& final(text)@ == after.text
            &&& *final(cursor) == offset(after.text, after.at)
            &&& changed == edit_changes(before, key)
        }),
        is_boundary(final(text)@, *final(cursor) as int),
{
    let mut chars = to_chars(text.as_str());
    let at: usize = caret_at(&chars, *cursor);
    let ghost before = caret_of(text@, *cursor as int);
    proof {
        lemma_edited_valid(before, key);
    }
    let mut to: usize = at;
    let mut changed: bool = false;
    match key.code {
        KeyCode::Left => {
            if key.modifiers.control {
                let classes = char_classes(&chars);
                to = word_left_index(&classes, at);
            } else if at > 0 {
                to = at - 1;
            }
        },
        KeyCode::Right => {
            if key.modifiers.control {
                let classes = char_classes(&chars);
                to = word_right_index(&classes, at);
            } else if at < chars.len() {
                to = at + 1;
            }
        },
        KeyCode::Home => {
            to = line_start_index(&chars, at);
        },
        KeyCode::End => {
            to = line_end_index(&chars, at);
        },
        KeyCode::Backspace => {
            if at > 0 {
                cut_range(&mut chars, at - 1, at);
                to = at - 1;
                changed = true;
            }
        },
        KeyCode::Delete => {
            if at < chars.len() {
                cut_range(&mut chars, at, at + 1);
                changed = true;
            }
        },
        KeyCode::Up => {
            to = line_up_index(&chars, at);
        },
        KeyCode::Down => {
            to = line_down_index(&chars, at);
        },
        KeyCode::Char(ch) => {
            if !key.modifiers.control {
                to = insert_at(&mut chars, at, ch);
                changed = true;
            }
        },
        _ => {},
    }
    store(text, cursor, &chars, to);
    changed
}

/// Applies a key to a text in insert mode.
pub fn apply_editor_insert_key(text: &mut String, cursor: &mut usize, key: KeyEvent) -> (r:
    EditorInsertResult)
    requires
        is_boundary(old(text)@, *old(cursor) as int),
    ensures
        ({
            let (after, result) = inserted(caret_of(old(text)@, *old(cursor) as int), key);
            &&& final(text)@ == after.text
            &&& *final(cursor) == offset(after.text, after.at)
            &&& r == result
        }),
        is_boundary(final(text)@, *final(cursor) as int),
{
    let mut chars = to_chars(text.as_str());
    let at: usize = caret_at(&chars, *cursor);
    let ghost before = caret_of(text@, *cursor as int);
    proof {
        lemma_edited_valid(before, key);
    }
    match key.code {
        KeyCode::Esc => EditorInsertResult::ExitInsert,
        KeyCode::Enter => {
            let next: usize = insert_at(&mut chars, at, '\n');
            store(text, cursor, &chars, next);
            EditorInsertResult::Changed
        },
        KeyCode::Tab => {
            let next: usize = insert_at(&mut chars, at, '\t');
            store(text, cursor, &chars, next);
            EditorInsertResult::Changed
        },
        KeyCode::Backspace => {
            if at == 0 {
                return EditorInsertResult::Ignored;
            }
            cut_range(&mut chars, at - 1, at);
            store(text, cursor, &chars, at - 1);
            EditorInsertResult::Changed
        },
        KeyCode::Delete => {
            if at >= chars.len() {
                return EditorInsertResult::Ignored;
            }
            cut_range(&mut chars, at, at + 1);
            store(text, cursor, &chars, at);
            EditorInsertResult::Changed
        },
        KeyCode::Left | KeyCode::Right | KeyCode::Up | KeyCode::Down | KeyCode::Home
        | KeyCode::End => {
            let _ = edit_text(text, cursor, key);
            EditorInsertResult::Moved
        },
        KeyCode::Char(ch) => {
            if key.modifiers.control || key.modifiers.alt {
                return EditorInsertResult::Ignored;
            }
            let next: usize = insert_at(&mut chars, at, ch);
            store(text, cursor, &chars, next);
            EditorInsertResult::Changed
        },
        _ => EditorInsertResult::Ignored,
    }
}

} // verus!
