//! What the editor of a project remembers, and what needs it: going back and on
//! through earlier texts, the two keys of `gg`, and the selection of lines.

use crate::chars::{char_classes, class_of, classes_of, whitespace};
use crate::edit::{caret_at, cut_range, store, Caret};
use crate::editor::{
    line_end, line_end_index, line_start, line_start_index, move_rows, rows_moved,
    visual_position, word_left, word_left_index, word_right, word_right_index,
};
use crate::effect::{EffectView, KeyEffect};
use crate::keys::{KeyCode, KeyEvent};
use crate::model::{App, AppMode, EditorMemory, Page, ProjectPane, ProjectState, Snapshot};
use crate::projects::{
    editor_caret, editor_ok, handle_project_editor_insert_key, handle_project_editor_normal_key,
    insert_mode_after, normal_mode_after, with_project,
};
use crate::runtime::MouseEventKind;
use crate::strings::same_text;
use crate::text::{byte_len, from_range, max, min, offset, to_chars};
use vstd::prelude::*;

verus! {

impl View for Snapshot {
    type V = Caret;

    open spec fn view(&self) -> Caret {
        Caret { text: self.text@, at: self.at as int }
    }
}

/// An [`EditorMemory`] by its texts.
#[verifier::ext_equal]
pub struct MemoryView {
    pub undo: Seq<Caret>,
    pub redo: Seq<Caret>,
    pub pending_g: bool,
    pub anchor: Option<usize>,
}

/// The texts and carets of a list.
pub open spec fn carets(v: Seq<Snapshot>) -> Seq<Caret> {
    v.map_values(|s: Snapshot| s@)
}

impl View for EditorMemory {
    type V = MemoryView;

    open spec fn view(&self) -> MemoryView {
        MemoryView {
            undo: carets(self.undo@),
            redo: carets(self.redo@),
            pending_g: self.pending_g,
            anchor: self.anchor,
        }
    }
}

/// Nothing is remembered.
pub open spec fn no_memory() -> MemoryView {
    MemoryView { undo: Seq::empty(), redo: Seq::empty(), pending_g: false, anchor: None }
}

/// Forgets what was remembered of another text.
pub(crate) fn fresh_memory() -> (r: EditorMemory)
    ensures
        r@ == no_memory(),
{
    let r = EditorMemory { undo: Vec::new(), redo: Vec::new(), pending_g: false, anchor: None };
    assert(r@ =~= no_memory());
    r
}

/// The state `after`, but with what was remembered before.
pub open spec fn forgetful(before: ProjectState, after: ProjectState) -> ProjectState {
    ProjectState { editor_memory: before.editor_memory, ..after }
}

/// What is remembered once a key has left `text` in the editor: a text that was
/// changed, and its caret. Nothing that was taken back can be had again then.
pub open spec fn noted(before: ProjectState, text: Seq<char>) -> MemoryView {
    let m = before.editor_memory@;
    if text == before.editor_text@ {
        MemoryView { pending_g: false, ..m }
    } else {
        MemoryView {
            undo: m.undo.push(editor_caret(before)),
            redo: Seq::empty(),
            pending_g: false,
            anchor: None,
        }
    }
}

pub(crate) fn snapshot_of(p: &ProjectState) -> (r: Snapshot)
    requires
        editor_ok(*p),
    ensures
        r@ == editor_caret(*p),
{
    let chars = to_chars(p.editor_text.as_str());
    let at: usize = caret_at(&chars, p.editor_cursor);
    Snapshot { text: p.editor_text.clone(), at }
}

/// Remembers the text from before a key, if the key has changed it.
pub(crate) fn note_change(p: &mut ProjectState, earlier: Snapshot)
    ensures
        *final(p) == (ProjectState { editor_memory: final(p).editor_memory, ..*old(p) }),
        final(p).editor_memory@ == (if earlier.text@ == old(p).editor_text@ {
            MemoryView { pending_g: false, ..old(p).editor_memory@ }
        } else {
            MemoryView {
                undo: old(p).editor_memory@.undo.push(earlier@),
                redo: Seq::empty(),
                pending_g: false,
                anchor: None,
            }
        }),
{
    let ghost m = p.editor_memory@;
    p.editor_memory.pending_g = false;
    if same_text(earlier.text.as_str(), p.editor_text.as_str()) {
        assert(p.editor_memory@ =~= (MemoryView { pending_g: false, ..m }));
        return ;
    }
    let ghost e = earlier@;
    p.editor_memory.undo.push(earlier);
    p.editor_memory.redo = Vec::new();
    p.editor_memory.anchor = None;
    proof {
        assert(carets(p.editor_memory.undo@) =~= m.undo.push(e));
        assert(carets(p.editor_memory.redo@) =~= Seq::empty());
    }
}

/// What a key does in the insert mode of the editor, and that a change of the text
/// is remembered.
pub open spec fn insert_key_after(before: ProjectState, after: ProjectState, key: KeyEvent) -> bool {
    &&& insert_mode_after(before, forgetful(before, after), key)
    &&& after.editor_memory@ == noted(before, after.editor_text@)
}

/// Keys of the insert mode of the editor.
pub(crate) fn handle_insert_key(p: &mut ProjectState, key: KeyEvent)
    requires
        editor_ok(*old(p)),
        key.code != KeyCode::Esc,
    ensures
        insert_key_after(*old(p), *final(p), key),
        editor_ok(*final(p)),
{
    let ghost before = *p;
    let earlier = snapshot_of(p);
    handle_project_editor_insert_key(p, key);
    let ghost mid = *p;
    note_change(p, earlier);
    assert(forgetful(before, *p) == mid);
}

/// The editor shows `c`, and remembers `m`.
pub open spec fn editor_is(
    before: ProjectState,
    after: ProjectState,
    c: Caret,
    dirty: bool,
    m: MemoryView,
) -> bool {
    &&& after == ProjectState {
        editor_text: after.editor_text,
        editor_cursor: after.editor_cursor,
        editor_dirty: dirty,
        editor_memory: after.editor_memory,
        ..before
    }
    &&& after.editor_text@ == c.text
    &&& after.editor_cursor == offset(c.text, c.at)
    &&& after.editor_memory@ == m
}

/// The editor shows the text that was changed, or taken back, last, and remembers
/// the one that it showed. Where there is none, nothing changes.
pub open spec fn stepped(before: ProjectState, after: ProjectState, back: bool) -> bool {
    let m = before.editor_memory@;
    let c = editor_caret(before);
    let from = if back {
        m.undo
    } else {
        m.redo
    };
    if from.len() == 0 {
        editor_is(before, after, c, before.editor_dirty, MemoryView { pending_g: false, ..m })
    } else {
        let d = from.last();
        editor_is(
            before,
            after,
            Caret { text: d.text, at: min(d.at, d.text.len() as int) },
            true,
            MemoryView {
                undo: if back {
                    m.undo.drop_last()
                } else {
                    m.undo.push(c)
                },
                redo: if back {
                    m.redo.push(c)
                } else {
                    m.redo.drop_last()
                },
                pending_g: false,
                anchor: None,
            },
        )
    }
}

fn step(p: &mut ProjectState, back: bool)
    requires
        editor_ok(*old(p)),
    ensures
        stepped(*old(p), *final(p), back),
        editor_ok(*final(p)),
{
    let ghost before = *p;
    let ghost m = p.editor_memory@;
    let now = snapshot_of(p);
    let ghost c = now@;
    proof {
        crate::text::lemma_boundary(p.editor_text@, p.editor_cursor as int);
    }
    let taken: Option<Snapshot> = if back {
        p.editor_memory.undo.pop()
    } else {
        p.editor_memory.redo.pop()
    };
    p.editor_memory.pending_g = false;
    match taken {
        None => {
            assert(p.editor_memory@ =~= (MemoryView { pending_g: false, ..m }));
        },
        Some(earlier) => {
            if back {
                p.editor_memory.redo.push(now);
            } else {
                p.editor_memory.undo.push(now);
            }
            p.editor_memory.anchor = None;
            proof {
                let undo = before.editor_memory.undo@;
                let redo = before.editor_memory.redo@;
                if back {
                    assert(carets(undo.drop_last()) =~= m.undo.drop_last());
                    assert(m.undo.last() == earlier@);
                    assert(carets(p.editor_memory.redo@) =~= m.redo.push(c));
                } else {
                    assert(carets(redo.drop_last()) =~= m.redo.drop_last());
                    assert(m.redo.last() == earlier@);
                    assert(carets(p.editor_memory.undo@) =~= m.undo.push(c));
                }
            }
            let chars = to_chars(earlier.text.as_str());
            let at: usize = if earlier.at > chars.len() {
                chars.len()
            } else {
                earlier.at
            };
            store(&mut p.editor_text, &mut p.editor_cursor, &chars, at);
            p.editor_dirty = true;
        },
    }
}

/// A change of the text can be taken back: text and caret are as they were before.
pub proof fn lemma_undo_takes_back(
    before: ProjectState,
    changed: ProjectState,
    after: ProjectState,
)
    requires
        editor_ok(before),
        changed.editor_text@ != before.editor_text@,
        changed.editor_memory@ == noted(before, changed.editor_text@),
        stepped(changed, after, true),
    ensures
        after.editor_text@ == before.editor_text@,
        after.editor_cursor == before.editor_cursor,
        after.editor_memory@.undo == before.editor_memory@.undo,
{
    crate::text::lemma_boundary(before.editor_text@, before.editor_cursor as int);
    let m = before.editor_memory@;
    assert(m.undo.push(editor_caret(before)).drop_last() =~= m.undo);
}

/// What was taken back can be had again: text, caret and what is remembered are as
/// they were before.
pub proof fn lemma_redo_brings_back(before: ProjectState, mid: ProjectState, after: ProjectState)
    requires
        editor_ok(before),
        before.editor_memory@.undo.len() > 0,
        before.editor_memory@.undo.last().valid(),
        stepped(before, mid, true),
        stepped(mid, after, false),
    ensures
        after.editor_text@ == before.editor_text@,
        after.editor_cursor == before.editor_cursor,
        after.editor_memory@.undo == before.editor_memory@.undo,
        after.editor_memory@.redo == before.editor_memory@.redo,
{
    let m = before.editor_memory@;
    let d = m.undo.last();
    crate::text::lemma_boundary(before.editor_text@, before.editor_cursor as int);
    crate::text::lemma_index_at(d.text, d.at);
    assert(editor_caret(mid) =~= d);
    assert(m.redo.push(editor_caret(before)).drop_last() =~= m.redo);
    assert(m.undo.drop_last().push(d) =~= m.undo);
}

/// The characters of the lines from the one where the selection starts to the one
/// of the caret, with the line break behind the last where there is one.
pub open spec fn selected_lines(c: Caret, anchor: usize) -> (int, int) {
    let a = min(anchor as int, c.text.len() as int);
    let last = line_end(c.text, max(a, c.at));
    (
        line_start(c.text, min(a, c.at)),
        if last < c.text.len() {
            last + 1
        } else {
            last
        },
    )
}

fn find_selected_lines(chars: &Vec<char>, at: usize, anchor: usize) -> (r: (usize, usize))
    requires
        at <= chars@.len(),
    ensures
        (r.0 as int, r.1 as int) == selected_lines(Caret { text: chars@, at: at as int }, anchor),
        r.0 <= r.1 <= chars@.len(),
{
    let a: usize = if anchor > chars.len() {
        chars.len()
    } else {
        anchor
    };
    let (first, last): (usize, usize) = if a < at {
        (a, at)
    } else {
        (at, a)
    };
    let from: usize = line_start_index(chars, first);
    let to: usize = line_end_index(chars, last);
    if to < chars.len() {
        (from, to + 1)
    } else {
        (from, to)
    }
}

/// What the keys do that select lines: `V` starts or ends the selection, `y` copies
/// the lines, and `d` copies them and takes them out.
pub open spec fn selection_after(
    before: ProjectState,
    after: ProjectState,
    effect: EffectView,
    letter: char,
) -> bool {
    let c = editor_caret(before);
    let calm = MemoryView { pending_g: false, ..before.editor_memory@ };
    match calm.anchor {
        None => {
            &&& effect == EffectView::Nothing
            &&& editor_is(
                before,
                after,
                c,
                before.editor_dirty,
                if letter == 'V' {
                    MemoryView { anchor: Some(c.at as usize), ..calm }
                } else {
                    calm
                },
            )
        },
        Some(anchor) => {
            let (from, to) = selected_lines(c, anchor);
            let free = MemoryView { anchor: None, ..calm };
            if letter == 'V' {
                &&& effect == EffectView::Nothing
                &&& editor_is(before, after, c, before.editor_dirty, free)
            } else {
                &&& effect == EffectView::CopyText(c.text.subrange(from, to))
                &&& if letter == 'y' || from == to {
                    editor_is(before, after, c.moved(from), before.editor_dirty, free)
                } else {
                    editor_is(
                        before,
                        after,
                        c.cut(from, to),
                        true,
                        noted(before, c.cut(from, to).text),
                    )
                }
            }
        },
    }
}

fn select_lines(p: &mut ProjectState, letter: char) -> (r: KeyEffect)
    requires
        editor_ok(*old(p)),
    ensures
        selection_after(*old(p), *final(p), r@, letter),
        editor_ok(*final(p)),
{
    let ghost before = *p;
    let ghost m = p.editor_memory@;
    let ghost calm = MemoryView { pending_g: false, ..m };
    let ghost free = MemoryView { anchor: None, ..calm };
    proof {
        crate::text::lemma_boundary(p.editor_text@, p.editor_cursor as int);
    }
    let earlier = snapshot_of(p);
    let mut chars = to_chars(p.editor_text.as_str());
    let at: usize = earlier.at;
    p.editor_memory.pending_g = false;
    assert(p.editor_memory@ =~= calm);
    match p.editor_memory.anchor {
        None => {
            if letter == 'V' {
                p.editor_memory.anchor = Some(at);
                assert(p.editor_memory@ =~= (MemoryView { anchor: Some(at), ..calm }));
            }
            KeyEffect::Nothing
        },
        Some(anchor) => {
            let (from, to) = find_selected_lines(&chars, at, anchor);
            p.editor_memory.anchor = None;
            assert(p.editor_memory@ =~= free);
            if letter == 'V' {
                return KeyEffect::Nothing;
            }
            let copied = from_range(&chars, from, to);
            if letter == 'y' || from == to {
                store(&mut p.editor_text, &mut p.editor_cursor, &chars, from);
            } else {
                let ghost c = earlier@;
                cut_range(&mut chars, from, to);
                store(&mut p.editor_text, &mut p.editor_cursor, &chars, from);
                p.editor_dirty = true;
                assert(p.editor_text@ == c.cut(from as int, to as int).text);
                assert(p.editor_text@.len() < c.text.len());
                note_change(p, earlier);
                assert(p.editor_memory@ =~= noted(before, c.cut(from as int, to as int).text));
            }
            KeyEffect::CopyText(copied)
        },
    }
}

/// A word taken out before or behind the caret.
pub open spec fn word_cut(c: Caret, before: bool) -> Caret {
    if before {
        c.cut(word_left(classes_of(c.text), c.at), c.at)
    } else {
        c.cut(c.at, word_right(classes_of(c.text), c.at))
    }
}

fn cut_word(p: &mut ProjectState, backwards: bool)
    requires
        editor_ok(*old(p)),
    ensures
        ({
            let d = word_cut(editor_caret(*old(p)), backwards);
            editor_is(
                *old(p),
                *final(p),
                d,
                old(p).editor_dirty || d.text != old(p).editor_text@,
                noted(*old(p), d.text),
            )
        }),
        editor_ok(*final(p)),
{
    let ghost before = *p;
    let earlier = snapshot_of(p);
    let ghost c = earlier@;
    let mut chars = to_chars(p.editor_text.as_str());
    let at: usize = earlier.at;
    let classes = char_classes(&chars);
    proof {
        crate::text::lemma_boundary(p.editor_text@, p.editor_cursor as int);
    }
    let (from, to): (usize, usize) = if backwards {
        (word_left_index(&classes, at), at)
    } else {
        (at, word_right_index(&classes, at))
    };
    cut_range(&mut chars, from, to);
    let ghost d = word_cut(c, backwards);
    assert(chars@ == d.text);
    store(&mut p.editor_text, &mut p.editor_cursor, &chars, from);
    if from < to {
        assert(d.text.len() < c.text.len());
        p.editor_dirty = true;
    } else {
        assert(d.text =~= c.text);
    }
    note_change(p, earlier);
    assert(p.editor_memory@ =~= noted(before, d.text));
}

/// What a key does in the normal mode of the editor, and that a change of the text
/// is remembered.
pub open spec fn normal_key_after(
    before: ProjectState,
    after: ProjectState,
    effect: EffectView,
    key: KeyEvent,
) -> bool {
    let c = editor_caret(before);
    let m = before.editor_memory@;
    let dirty = before.editor_dirty;
    let calm = MemoryView { pending_g: false, ..m };
    let word = key.code == KeyCode::Backspace || key.code == KeyCode::Delete;
    if key.modifiers.control && word {
        let d = word_cut(c, key.code == KeyCode::Backspace);
        &&& effect == EffectView::Nothing
        &&& editor_is(before, after, d, dirty || d.text != c.text, noted(before, d.text))
    } else if key.modifiers.control && key.code == KeyCode::Char('r') {
        effect == EffectView::Nothing && stepped(before, after, false)
    } else if !key.modifiers.control && key.code == KeyCode::Char('u') {
        effect == EffectView::Nothing && stepped(before, after, true)
    } else if !key.modifiers.control && key.code == KeyCode::Char('g') {
        &&& effect == EffectView::Nothing
        &&& if m.pending_g {
            editor_is(before, after, c.moved(0), dirty, calm)
        } else {
            editor_is(before, after, c, dirty, MemoryView { pending_g: true, ..m })
        }
    } else if !key.modifiers.control && key.code == KeyCode::Char('G') {
        &&& effect == EffectView::Nothing
        &&& editor_is(before, after, c.moved(c.text.len() as int), dirty, calm)
    } else if !key.modifiers.control && (key.code == KeyCode::Char('V') || key.code
        == KeyCode::Char('y') || key.code == KeyCode::Char('d')) {
        selection_after(
            before,
            after,
            effect,
            if key.code == KeyCode::Char('V') {
                'V'
            } else if key.code == KeyCode::Char('y') {
                'y'
            } else {
                'd'
            },
        )
    } else {
        &&& effect == EffectView::Nothing
        &&& normal_mode_after(before, forgetful(before, after), key)
        &&& after.editor_memory@ == noted(before, after.editor_text@)
    }
}

/// Whether a key of normal mode needs what is remembered, or takes out a word.
pub open spec fn remembering(key: KeyEvent) -> bool {
    if key.modifiers.control {
        key.code == KeyCode::Backspace || key.code == KeyCode::Delete || key.code
            == KeyCode::Char('r')
    } else {
        key.code == KeyCode::Char('u') || key.code == KeyCode::Char('g') || key.code
            == KeyCode::Char('G') || key.code == KeyCode::Char('V') || key.code
            == KeyCode::Char('y') || key.code == KeyCode::Char('d')
    }
}

proof fn lemma_editor_is(before: ProjectState, after: ProjectState, c: Caret, dirty: bool, m: MemoryView)
    requires
        editor_is(before, after, c, dirty, m),
        c.valid(),
    ensures
        editor_ok(after),
{
    crate::text::lemma_index_at(c.text, c.at);
}

/// These keys keep the caret of the editor between two characters.
pub proof fn lemma_remembering_keeps_caret(
    before: ProjectState,
    after: ProjectState,
    effect: EffectView,
    key: KeyEvent,
)
    requires
        editor_ok(before),
        remembering(key),
        normal_key_after(before, after, effect, key),
    ensures
        editor_ok(after),
{
    let c = editor_caret(before);
    let m = before.editor_memory@;
    let dirty = after.editor_dirty;
    let now = after.editor_memory@;
    crate::text::lemma_boundary(before.editor_text@, before.editor_cursor as int);
    crate::editor::lemma_word_motion(classes_of(c.text), c.at);
    let anchor = m.anchor.unwrap_or(0);
    let a = min(anchor as int, c.text.len() as int);
    crate::editor::lemma_line_start(c.text, min(a, c.at));
    crate::editor::lemma_line_end(c.text, max(a, c.at));
    let (from, to) = selected_lines(c, anchor);
    if m.undo.len() > 0 {
        assert(m.undo.last() == before.editor_memory.undo@.last()@);
    }
    if m.redo.len() > 0 {
        assert(m.redo.last() == before.editor_memory.redo@.last()@);
    }
    let d = if key.modifiers.control && key.code == KeyCode::Char('r') && m.redo.len() > 0 {
        Caret { text: m.redo.last().text, at: min(m.redo.last().at, m.redo.last().text.len() as int) }
    } else if key.modifiers.control && key.code != KeyCode::Char('r') {
        word_cut(c, key.code == KeyCode::Backspace)
    } else if key.code == KeyCode::Char('u') && m.undo.len() > 0 {
        Caret { text: m.undo.last().text, at: min(m.undo.last().at, m.undo.last().text.len() as int) }
    } else if key.code == KeyCode::Char('g') && m.pending_g {
        c.moved(0)
    } else if key.code == KeyCode::Char('G') {
        c.moved(c.text.len() as int)
    } else if m.anchor is Some && (key.code == KeyCode::Char('y') || (key.code == KeyCode::Char('d')
        && from == to)) {
        c.moved(from)
    } else if m.anchor is Some && key.code == KeyCode::Char('d') {
        c.cut(from, to)
    } else {
        c
    };
    assert(d.valid());
    lemma_editor_is(before, after, d, dirty, now);
}

fn go_to(p: &mut ProjectState, end: bool)
    requires
        editor_ok(*old(p)),
    ensures
        ({
            let c = editor_caret(*old(p));
            editor_is(
                *old(p),
                *final(p),
                c.moved(
                    if end {
                        c.text.len() as int
                    } else {
                        0
                    },
                ),
                old(p).editor_dirty,
                MemoryView { pending_g: false, ..old(p).editor_memory@ },
            )
        }),
        editor_ok(*final(p)),
{
    let ghost m = p.editor_memory@;
    let chars = to_chars(p.editor_text.as_str());
    let at: usize = if end {
        chars.len()
    } else {
        0
    };
    store(&mut p.editor_text, &mut p.editor_cursor, &chars, at);
    p.editor_memory.pending_g = false;
    assert(p.editor_memory@ =~= (MemoryView { pending_g: false, ..m }));
}

/// Keys of the normal mode of the editor.
pub(crate) fn handle_normal_key(p: &mut ProjectState, key: KeyEvent) -> (r: KeyEffect)
    requires
        editor_ok(*old(p)),
    ensures
        normal_key_after(*old(p), *final(p), r@, key),
        editor_ok(*final(p)),
{
    let ghost before = *p;
    let ghost m = p.editor_memory@;
    if key.modifiers.control {
        match key.code {
            KeyCode::Backspace => {
                cut_word(p, true);
                return KeyEffect::Nothing;
            },
            KeyCode::Delete => {
                cut_word(p, false);
                return KeyEffect::Nothing;
            },
            KeyCode::Char('r') => {
                step(p, false);
                return KeyEffect::Nothing;
            },
            _ => {},
        }
    } else {
        match key.code {
            KeyCode::Char('u') => {
                step(p, true);
                return KeyEffect::Nothing;
            },
            KeyCode::Char('g') => {
                if p.editor_memory.pending_g {
                    go_to(p, false);
                } else {
                    proof {
                        crate::text::lemma_boundary(p.editor_text@, p.editor_cursor as int);
                    }
                    p.editor_memory.pending_g = true;
                    assert(p.editor_memory@ =~= (MemoryView { pending_g: true, ..m }));
                }
                return KeyEffect::Nothing;
            },
            KeyCode::Char('G') => {
                go_to(p, true);
                return KeyEffect::Nothing;
            },
            KeyCode::Char('V') => {
                return select_lines(p, 'V');
            },
            KeyCode::Char('y') => {
                return select_lines(p, 'y');
            },
            KeyCode::Char('d') => {
                return select_lines(p, 'd');
            },
            _ => {},
        }
    }
    let earlier = snapshot_of(p);
    handle_project_editor_normal_key(p, key);
    let ghost mid = *p;
    note_change(p, earlier);
    assert(forgetful(before, *p) == mid);
    KeyEffect::Nothing
}

/// Whether the wheel of the mouse scrolls the editor of a project.
pub open spec fn wheel_scrolls(app: App) -> bool {
    app.page == Page::Projects && app.mode == AppMode::Normal && app.content_focused
        && app.project.active is Some && app.project.pane == ProjectPane::Editor
}

/// Where three rows on the screen up or down lead the caret to.
pub open spec fn wheeled(p: ProjectState, up: bool) -> int {
    let c = editor_caret(p);
    let w = p.editor_wrap_width as int;
    rows_moved(
        c.text,
        c.at,
        if up {
            -3
        } else {
            3
        },
        visual_position(c.text, c.at, w).1,
        w,
    )
}

/// Scrolls the editor of a project by three rows where the wheel of the mouse is for
/// it: the caret goes with the rows.
pub fn scroll_project_editor(app: &mut App, kind: MouseEventKind)
    requires
        editor_ok(old(app).project),
    ensures
        *final(app) == with_project(*old(app), final(app).project),
        final(app).project == (ProjectState {
            editor_cursor: final(app).project.editor_cursor,
            ..old(app).project
        }),
        final(app).project.editor_cursor == (if wheel_scrolls(*old(app)) && kind
            != MouseEventKind::Other {
            offset(
                old(app).project.editor_text@,
                wheeled(old(app).project, kind == MouseEventKind::ScrollUp),
            )
        } else {
            old(app).project.editor_cursor as int
        }),
        editor_ok(final(app).project),
{
    if app.page != Page::Projects || app.mode != AppMode::Normal || !app.content_focused
        || app.project.active.is_none() || app.project.pane != ProjectPane::Editor {
        return ;
    }
    let delta: isize = match kind {
        MouseEventKind::ScrollUp => -3,
        MouseEventKind::ScrollDown => 3,
        MouseEventKind::Other => {
            return ;
        },
    };
    let p = &mut app.project;
    proof {
        crate::text::lemma_boundary(p.editor_text@, p.editor_cursor as int);
    }
    let (cursor, _goal) = move_rows(
        p.editor_text.as_str(),
        p.editor_cursor,
        delta,
        None,
        p.editor_wrap_width,
    );
    p.editor_cursor = cursor;
}

/// The lines from the one where the selection starts to the one of the caret are copied
/// whole, and `d` takes them out, whichever of the two comes first.
pub proof fn lemma_whole_lines_are_taken(
    before: ProjectState,
    after: ProjectState,
    effect: EffectView,
    key: KeyEvent,
    above: Seq<char>,
    left: Seq<char>,
    mid: Seq<char>,
    right: Seq<char>,
    end: Seq<char>,
    below: Seq<char>,
    backwards: bool,
)
    requires
        normal_key_after(before, after, effect, key),
        !key.modifiers.control,
        key.code == KeyCode::Char('y') || key.code == KeyCode::Char('d'),
        before.editor_text@ == above + left + mid + right + end + below,
        above.len() == 0 || above.last() == '\n',
        !left.contains('\n'),
        !right.contains('\n'),
        end == seq!['\n'] || end.len() == 0 && below.len() == 0,
        before.editor_text@.len() <= usize::MAX,
        before.editor_cursor == byte_len(
            if backwards {
                above + left
            } else {
                above + left + mid
            },
        ),
        before.editor_memory@.anchor == Some(
            (if backwards {
                above.len() + left.len() + mid.len()
            } else {
                above.len() + left.len()
            }) as usize,
        ),
    ensures
        effect == EffectView::CopyText(left + mid + right + end),
        key.code == KeyCode::Char('y') ==> after.editor_text@ == before.editor_text@
            && after.editor_dirty == before.editor_dirty,
        key.code == KeyCode::Char('d') ==> after.editor_text@ == above + below,
        after.editor_cursor == byte_len(above),
        after.editor_memory@.anchor is None,
{
    let t = before.editor_text@;
    let c = editor_caret(before);
    let to = above.len() + left.len() + mid.len() + right.len() + end.len();
    let anchor = before.editor_memory@.anchor->0;
    assert(selected_lines(c, anchor) == (above.len() as int, to as int) && c.text == t) by {
        lemma_lines_selected(above, left, mid, right, end, below, backwards, before, anchor);
    }
    lemma_lines_apart(above, left + mid + right + end, below);
    assert(above + (left + mid + right + end) + below =~= t);
    if above.len() == to {
        assert(left + mid + right + end =~= Seq::<char>::empty());
        assert(above + below =~= t);
    }
}

proof fn lemma_lines_apart(above: Seq<char>, lines: Seq<char>, below: Seq<char>)
    ensures
        ({
            let t = above + lines + below;
            let p = above.len() as int;
            let to = p + lines.len();
            &&& t.subrange(p, to) == lines
            &&& t.take(p) == above
            &&& t.skip(to) == below
            &&& offset(t, p) == byte_len(above)
            &&& offset(above + below, p) == byte_len(above)
        }),
{
    let t = above + lines + below;
    let p = above.len() as int;
    let to = p + lines.len();
    assert(t.subrange(p, to) =~= lines);
    assert(t.take(p) =~= above);
    assert(t.skip(to) =~= below);
    assert((above + below).take(p) =~= above);
}

proof fn lemma_lines_selected(
    above: Seq<char>,
    left: Seq<char>,
    mid: Seq<char>,
    right: Seq<char>,
    end: Seq<char>,
    below: Seq<char>,
    backwards: bool,
    before: ProjectState,
    anchor: usize,
)
    requires
        before.editor_text@ == above + left + mid + right + end + below,
        above.len() == 0 || above.last() == '\n',
        !left.contains('\n'),
        !right.contains('\n'),
        end == seq!['\n'] || end.len() == 0 && below.len() == 0,
        before.editor_cursor == byte_len(
            if backwards {
                above + left
            } else {
                above + left + mid
            },
        ),
        anchor == (if backwards {
            above.len() + left.len() + mid.len()
        } else {
            above.len() + left.len()
        }),
    ensures
        editor_caret(before).text == before.editor_text@,
        selected_lines(editor_caret(before), anchor) == (
            above.len() as int,
            (above.len() + left.len() + mid.len() + right.len() + end.len()) as int,
        ),
{
    let t = before.editor_text@;
    let p = above.len() as int;
    let lower = p + left.len();
    let upper = lower + mid.len();
    let e = upper + right.len();
    if backwards {
        crate::field::lemma_caret_between(above + left, mid + right + end + below);
        assert(above + left + (mid + right + end + below) =~= t);
    } else {
        crate::field::lemma_caret_between(above + left + mid, right + end + below);
        assert(above + left + mid + (right + end + below) =~= t);
    }
    assert forall|i: int| p <= i < lower implies t[i] != '\n' by {
        assert(t[i] == left[i - p]);
    }
    assert forall|i: int| upper <= i < e implies t[i] != '\n' by {
        assert(t[i] == right[i - upper]);
    }
    if p > 0 {
        assert(t[p - 1] == above.last());
    }
    if e < t.len() {
        assert(t[e] == end[0]);
    }
    crate::edit::lemma_line_start_is(t, p, lower);
    crate::edit::lemma_line_end_is(t, upper, e);
}

/// Two `g` go to the start of the text and `G` to its end. They change nothing else.
pub proof fn lemma_ends_of_the_text_are_reached(
    before: ProjectState,
    mid: ProjectState,
    after: ProjectState,
    effect: EffectView,
    other: EffectView,
    key: KeyEvent,
)
    requires
        editor_ok(before),
        !key.modifiers.control,
        normal_key_after(before, mid, effect, key),
        normal_key_after(mid, after, other, key),
    ensures
        key.code == KeyCode::Char('g') && !before.editor_memory@.pending_g ==> after.editor_text@
            == before.editor_text@ && after.editor_cursor == 0 && after.editor_dirty
            == before.editor_dirty && mid.editor_cursor == before.editor_cursor,
        key.code == KeyCode::Char('G') ==> mid.editor_text@ == before.editor_text@
            && mid.editor_cursor == byte_len(before.editor_text@) && mid.editor_dirty
            == before.editor_dirty,
{
    crate::text::lemma_boundary(before.editor_text@, before.editor_cursor as int);
    crate::text::lemma_offset_ends(before.editor_text@);
    assert(before.editor_text@.take(before.editor_text@.len() as int) =~= before.editor_text@);
}

/// With Control, Backspace takes out the word before the caret with the white space
/// between them, and Delete takes out the word behind the caret with the white space
/// behind it.
pub proof fn lemma_words_are_taken_out(
    before: ProjectState,
    after: ProjectState,
    effect: EffectView,
    key: KeyEvent,
    a: Seq<char>,
    word: Seq<char>,
    gap: Seq<char>,
    b: Seq<char>,
)
    requires
        normal_key_after(before, after, effect, key),
        key.modifiers.control,
        before.editor_text@ == a + word + gap + b,
        word.len() > 0,
        !whitespace(word[0]),
        forall|i: int| 0 <= i < word.len() ==> class_of(#[trigger] word[i]) == class_of(word[0]),
        forall|i: int| 0 <= i < gap.len() ==> whitespace(#[trigger] gap[i]),
    ensures
        key.code == KeyCode::Backspace && before.editor_cursor == byte_len(a + word + gap) && (
        a.len() > 0 ==> class_of(a.last()) != class_of(word[0])) ==> after.editor_text@ == a + b
            && after.editor_cursor == byte_len(a) && after.editor_dirty,
        key.code == KeyCode::Delete && before.editor_cursor == byte_len(a) && (b.len() > 0
            ==> !whitespace(b[0])) && (b.len() > 0 && gap.len() == 0 ==> class_of(b[0]) != class_of(
            word[0],
        )) ==> after.editor_text@ == a + b && after.editor_cursor == byte_len(a)
            && after.editor_dirty,
{
    let t = a + word + gap + b;
    let n = a.len() as int;
    let e = n + word.len() + gap.len();
    crate::field::lemma_caret_between(a + word + gap, b);
    crate::field::lemma_caret_between(a, word + gap + b);
    assert(a + (word + gap + b) =~= t);
    assert(t.take(n) =~= a);
    assert(t.skip(e) =~= b);
    crate::field::lemma_caret_between(a, b);
    assert((a + b).len() < t.len());
    if key.code == KeyCode::Backspace && (a.len() > 0 ==> class_of(a.last()) != class_of(word[0])) {
        crate::edit::lemma_word_left_passes_a_word(
            a,
            word,
            gap,
            b,
            KeyEvent { code: KeyCode::Left, ..key },
        );
    }
    if key.code == KeyCode::Delete && (b.len() > 0 ==> !whitespace(b[0])) && (b.len() > 0
        && gap.len() == 0 ==> class_of(b[0]) != class_of(word[0])) {
        crate::edit::lemma_word_right_passes_a_word(
            a,
            word,
            gap,
            b,
            KeyEvent { code: KeyCode::Right, ..key },
        );
    }
}

/// In normal mode `x` takes out the character behind the caret, which can be taken back,
/// and `i` starts the insert mode.
pub proof fn lemma_normal_mode_takes_commands(
    before: ProjectState,
    after: ProjectState,
    effect: EffectView,
    key: KeyEvent,
    a: Seq<char>,
    ch: char,
    b: Seq<char>,
)
    requires
        normal_key_after(before, after, effect, key),
        !key.modifiers.control,
        key.code == KeyCode::Char('x') || key.code == KeyCode::Char('i'),
        before.editor_text@ == a.push(ch) + b,
        before.editor_cursor == byte_len(a),
    ensures
        key.code == KeyCode::Char('x') ==> after.editor_text@ == a + b && after.editor_cursor
            == byte_len(a) && after.editor_dirty && after.editor_memory@.undo
            == before.editor_memory@.undo.push(Caret { text: a.push(ch) + b, at: a.len() as int }),
        key.code == KeyCode::Char('i') ==> after.editor_insert_mode && after.editor_text@
            == before.editor_text@ && after.editor_cursor == before.editor_cursor,
{
    let t = a.push(ch) + b;
    let n = a.len() as int;
    assert(editor_caret(before) == (Caret { text: t, at: n })) by {
        crate::field::lemma_caret_between(a, seq![ch] + b);
        assert(a + (seq![ch] + b) =~= t);
    }
    lemma_lines_apart(a, seq![ch], b);
    assert(a + seq![ch] + b =~= t);
    assert((a + b).len() < t.len());
}

} // verus!
