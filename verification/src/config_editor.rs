//! The editor of the configuration file.

use crate::chars::{classes_of, whitespace};
use crate::edit::{
    apply_editor_insert_key, caret_at, caret_of, cut_range, floor_at, floor_index, inserted,
    line_down, line_down_index, line_up, line_up_index, Caret, EditorInsertResult,
};
use crate::editor::{
    config_editor_line_end, config_editor_line_start, config_editor_wrap_rows,
    cursor_visual_position, expand_tabs_for_editor_view, expanded, line_end, line_start, move_rows,
    next_word_boundary, prev_word_boundary, rows_moved, visual_position, word_left, word_right,
    wrap_rows,
};
use crate::keys::{KeyCode, KeyEvent};
use crate::model::{App, Command};
use crate::navigation::dispatched;
use crate::strings::{concat, decimal, opt_text, same_text, texts, to_decimal, trim, trimmed};
use crate::text::{
    byte_len, byte_offset, char_index, from_range, is_boundary, max, min, offset, push_char, text_len,
    to_chars,
};
use vstd::prelude::*;

verus! {

/// How many earlier texts are kept.
pub const HISTORY_LIMIT: usize = 50;

/// The editor of the configuration file. `history` holds earlier texts, of which
/// `history_idx` is the current one.
#[derive(Debug)]
pub struct ConfigEditor {
    pub text: String,
    pub cursor: usize,
    pub scroll: usize,
    pub wrap_width: usize,
    pub viewport_height: usize,
    pub goal_column: Option<usize>,
    pub insert_mode: bool,
    pub command: Option<String>,
    pub error: Option<String>,
    pub history: Vec<String>,
    pub history_idx: usize,
    pub focused: bool,
}

impl ConfigEditor {
    /// Whether the current one of the earlier texts exists.
    pub open spec fn history_ok(self) -> bool {
        self.history@.len() > 0 ==> self.history_idx < self.history@.len()
    }

    /// Whether the caret lies between two characters, and the current one of the
    /// earlier texts exists.
    pub open spec fn wf(self) -> bool {
        &&& is_boundary(self.text@, self.cursor as int)
        &&& self.history_ok()
    }

    /// Whether the caret lies within a character. It does where another text is shown
    /// again in which its place is none between two characters.
    pub open spec fn adrift(self) -> bool {
        &&& !is_boundary(self.text@, self.cursor as int)
        &&& self.cursor < byte_len(self.text@)
        &&& self.history_ok()
    }

    /// Whether a key can be taken. Most need the caret between two characters; what
    /// goes without is to type a command, to leave, to show another text, and to step
    /// out of the character.
    pub open spec fn takes(self, key: KeyEvent) -> bool {
        self.wf() || (self.adrift() && if self.command is Some {
            true
        } else if self.insert_mode {
            adrift_insert(key)
        } else {
            adrift_normal(key)
        })
    }

    /// The text and the caret.
    pub open spec fn caret(self) -> Caret {
        caret_of(self.text@, self.cursor as int)
    }
}

/// Whether insert mode takes a key while the caret lies within a character.
pub open spec fn adrift_insert(key: KeyEvent) -> bool {
    match key.code {
        KeyCode::Left | KeyCode::Right => !key.modifiers.control,
        KeyCode::Char(_) => key.modifiers.control || key.modifiers.alt,
        KeyCode::Esc | KeyCode::BackTab | KeyCode::Insert | KeyCode::Other => true,
        _ => false,
    }
}

/// Whether normal mode takes a key while the caret lies within a character.
pub open spec fn adrift_normal(key: KeyEvent) -> bool {
    match key.code {
        KeyCode::Left | KeyCode::Char('h') | KeyCode::Right | KeyCode::Char('l') =>
            !key.modifiers.control,
        KeyCode::Home | KeyCode::End | KeyCode::Up | KeyCode::Down | KeyCode::PageUp
        | KeyCode::PageDown => false,
        KeyCode::Char(c) => c != 'k' && c != 'j' && c != 'x',
        _ => true,
    }
}

/// Whether a key can be taken.
pub fn takes_config_key(e: &ConfigEditor, key: KeyEvent) -> (r: bool)
    ensures
        r == e.takes(key),
{
    if e.history.len() > 0 && e.history_idx >= e.history.len() {
        return false;
    }
    if between_characters(e) {
        return true;
    }
    if e.cursor >= text_len(e.text.as_str()) {
        return false;
    }
    if e.command.is_some() {
        return true;
    }
    let control: bool = key.modifiers.control;
    if e.insert_mode {
        match key.code {
            KeyCode::Left | KeyCode::Right => !control,
            KeyCode::Char(_) => control || key.modifiers.alt,
            KeyCode::Esc | KeyCode::BackTab | KeyCode::Insert | KeyCode::Other => true,
            _ => false,
        }
    } else {
        match key.code {
            KeyCode::Left | KeyCode::Char('h') | KeyCode::Right | KeyCode::Char('l') => !control,
            KeyCode::Home | KeyCode::End | KeyCode::Up | KeyCode::Down | KeyCode::PageUp
            | KeyCode::PageDown => false,
            KeyCode::Char(c) => c != 'k' && c != 'j' && c != 'x',
            _ => true,
        }
    }
}

fn between_characters(e: &ConfigEditor) -> (r: bool)
    ensures
        r == is_boundary(e.text@, e.cursor as int),
{
    let chars = to_chars(e.text.as_str());
    char_index(&chars, e.cursor).is_some()
}

/// The caret has stepped out of the character that it lay in, to its start or
/// behind it.
pub open spec fn stepped_out(before: ConfigEditor, after: ConfigEditor, right: bool) -> bool {
    let s = before.text@;
    let k = floor_index(s, s.len() as int, before.cursor as int);
    after == ConfigEditor {
        cursor: offset(
            s,
            if right {
                k + 1
            } else {
                k
            },
        ) as usize,
        goal_column: None,
        ..before
    }
}

fn step_out(e: &mut ConfigEditor, right: bool)
    requires
        old(e).adrift(),
    ensures
        stepped_out(*old(e), *final(e), right),
        final(e).wf(),
{
    let chars = to_chars(e.text.as_str());
    let ghost s = e.text@;
    proof {
        crate::text::lemma_offset_ends(s);
        crate::edit::lemma_floor_index(s, s.len() - 1, e.cursor as int);
    }
    let k: usize = floor_at(&chars, chars.len(), e.cursor);
    let at: usize = if right {
        k + 1
    } else {
        k
    };
    proof {
        crate::text::lemma_index_at(s, at as int);
    }
    e.cursor = byte_offset(&chars, at);
    e.goal_column = None;
}

/// Whether only text, caret and goal column differ, and the text and the caret are
/// those of `c`.
pub open spec fn becomes(before: ConfigEditor, after: ConfigEditor, c: Caret, goal: Option<usize>) -> bool {
    &&& after == ConfigEditor {
        text: after.text,
        cursor: after.cursor,
        goal_column: goal,
        ..before
    }
    &&& after.text@ == c.text
    &&& after.cursor == offset(c.text, c.at)
}

/// The column that vertical moves aim at.
pub open spec fn aim(e: ConfigEditor) -> int {
    match e.goal_column {
        Some(g) => g as int,
        None => visual_position(e.text@, e.caret().at, max(e.wrap_width as int, 1)).1,
    }
}

/// The caret after a move by `delta` rows.
pub open spec fn vertical(e: ConfigEditor, delta: int) -> Caret {
    let c = e.caret();
    c.moved(rows_moved(c.text, c.at, delta, aim(e), max(e.wrap_width as int, 1)))
}

/// Moves the caret by rows, towards the column where it started.
pub fn move_config_editor_vertical(e: &mut ConfigEditor, row_delta: isize)
    requires
        old(e).wf(),
    ensures
        becomes(
            *old(e),
            *final(e),
            vertical(*old(e), row_delta as int),
            Some(aim(*old(e)) as usize),
        ),
        final(e).wf(),
{
    let w: usize = if e.wrap_width == 0 {
        1
    } else {
        e.wrap_width
    };
    proof {
        crate::text::lemma_boundary(e.text@, e.cursor as int);
    }
    let (cursor, goal) = move_rows(e.text.as_str(), e.cursor, row_delta, e.goal_column, w);
    e.cursor = cursor;
    e.goal_column = Some(goal);
}

/// Number of rows that a page of the editor has.
pub open spec fn page_rows(e: ConfigEditor) -> int {
    min(max(e.viewport_height as int, 1), isize::MAX as int)
}

/// Moves the caret by one page.
pub fn move_config_editor_page(e: &mut ConfigEditor, up: bool)
    requires
        old(e).wf(),
    ensures
        becomes(
            *old(e),
            *final(e),
            vertical(
                *old(e),
                if up {
                    -page_rows(*old(e))
                } else {
                    page_rows(*old(e))
                },
            ),
            Some(aim(*old(e)) as usize),
        ),
        final(e).wf(),
{
    let height: isize = if e.viewport_height == 0 {
        1
    } else if e.viewport_height > isize::MAX as usize {
        isize::MAX
    } else {
        e.viewport_height as isize
    };
    move_config_editor_vertical(
        e,
        if up {
            -height
        } else {
            height
        },
    );
}

/// Whether the editor holds a text from disk, and nothing else is left.
pub open spec fn buffer_reset(before: ConfigEditor, after: ConfigEditor, text: Seq<char>, error: Option<Seq<char>>) -> bool {
    &&& after == ConfigEditor {
        text: after.text,
        cursor: 0,
        scroll: 0,
        history: after.history,
        history_idx: 0,
        command: None,
        insert_mode: false,
        error: after.error,
        goal_column: None,
        ..before
    }
    &&& after.text@ == text
    &&& texts(after.history@) == seq![text]
    &&& opt_text(after.error) == error
}

/// Puts a text into the editor in place of everything that was there.
pub fn reset_config_editor_buffer(e: &mut ConfigEditor, text: String)
    ensures
        buffer_reset(*old(e), *final(e), text@, None),
        final(e).wf(),
{
    proof {
        crate::text::lemma_boundary_ends(text@);
    }
    let mut history: Vec<String> = Vec::new();
    history.push(text.clone());
    assert(texts(history@) =~= seq![text@]);
    e.text = text;
    e.cursor = 0;
    e.scroll = 0;
    e.history = history;
    e.history_idx = 0;
    e.command = None;
    e.insert_mode = false;
    e.error = None;
    e.goal_column = None;
}

/// Puts the text of the file into the editor. Where it cannot be read, the editor
/// is empty and tells why.
pub fn reload_config_editor_buffer(e: &mut ConfigEditor, read: Result<String, String>)
    ensures
        match read {
            Ok(text) => buffer_reset(*old(e), *final(e), text@, None),
            Err(error) => buffer_reset(
                *old(e),
                *final(e),
                Seq::empty(),
                Some("Could not reload configuration: "@ + error@),
            ),
        },
        final(e).wf(),
{
    match read {
        Ok(text) => reset_config_editor_buffer(e, text),
        Err(error) => {
            let empty = String::new();
            assert(empty@ =~= Seq::empty());
            reset_config_editor_buffer(e, empty);
            e.error = Some(concat("Could not reload configuration: ", error.as_str()));
        },
    }
}

/// The earlier texts once `text` has been noted, and the current one. A text that
/// is the current one is not noted again; later ones are dropped, and the oldest
/// where there are too many.
pub open spec fn noted(history: Seq<Seq<char>>, idx: int, text: Seq<char>) -> (Seq<Seq<char>>, int) {
    if history.len() > 0 && history[idx] == text {
        (history, idx)
    } else {
        let all = history.take(min(idx + 1, history.len() as int)).push(text);
        let kept = if all.len() > HISTORY_LIMIT {
            all.drop_first()
        } else {
            all
        };
        (kept, kept.len() - 1)
    }
}

/// Whether only the earlier texts differ, and the current text has been noted.
pub open spec fn recorded(before: ConfigEditor, after: ConfigEditor) -> bool {
    let (history, idx) = noted(texts(before.history@), before.history_idx as int, before.text@);
    &&& after == ConfigEditor { history: after.history, history_idx: idx as usize, ..before }
    &&& texts(after.history@) == history
}

/// Notes the current text among the earlier ones.
pub fn record_config_history(e: &mut ConfigEditor)
    requires
        old(e).history_ok(),
    ensures
        recorded(*old(e), *final(e)),
        final(e).history_ok(),
        final(e).history@.len() > 0,
        old(e).history@.len() <= HISTORY_LIMIT ==> final(e).history@.len() <= HISTORY_LIMIT,
{
    let ghost old_history = texts(e.history@);
    if e.history.len() > 0 && same_text(e.history[e.history_idx].as_str(), e.text.as_str()) {
        return ;
    }
    if e.history.len() > 0 {
        let keep: usize = e.history_idx + 1;
        e.history.truncate(keep);
    }
    let ghost before = texts(e.history@);
    assert(before =~= old_history.take(
        min(old(e).history_idx + 1, old_history.len() as int),
    ));
    e.history.push(e.text.clone());
    assert(texts(e.history@) =~= before.push(e.text@));
    if e.history.len() > HISTORY_LIMIT {
        let ghost all = texts(e.history@);
        let _ = e.history.remove(0);
        assert(texts(e.history@) =~= all.drop_first());
    }
    e.history_idx = e.history.len() - 1;
}

/// Noting the same text twice is noting it once, and what was noted last is what
/// undoing comes back to.
pub proof fn lemma_noting_settles(history: Seq<Seq<char>>, idx: int, text: Seq<char>)
    requires
        history.len() > 0 ==> 0 <= idx < history.len(),
        0 <= idx,
    ensures
        ({
            let (h, i) = noted(history, idx, text);
            h.len() > 0 && 0 <= i < h.len() && h[i] == text && noted(h, i, text) == (h, i)
        }),
{
}

/// Whether a key in insert mode may change the text.
pub open spec fn may_change(code: KeyCode) -> bool {
    code == KeyCode::Backspace || code == KeyCode::Delete || code == KeyCode::Enter || code
        == KeyCode::Tab || code is Char
}

/// What a key does in insert mode while the caret lies within a character.
pub open spec fn insert_adrift(before: ConfigEditor, after: ConfigEditor, key: KeyEvent) -> bool {
    match key.code {
        KeyCode::Left => stepped_out(before, after, false),
        KeyCode::Right => stepped_out(before, after, true),
        KeyCode::Esc => after == ConfigEditor { insert_mode: false, goal_column: None, ..before },
        KeyCode::Char(_) => after.goal_column is None && recorded(
            before,
            ConfigEditor { goal_column: before.goal_column, ..after },
        ),
        _ => after == ConfigEditor { goal_column: None, ..before },
    }
}

/// What a key does in insert mode.
pub open spec fn insert_after(before: ConfigEditor, after: ConfigEditor, key: KeyEvent) -> bool {
    if before.adrift() {
        insert_adrift(before, after, key)
    } else {
        insert_settled(before, after, key)
    }
}

/// What a key does in insert mode while the caret lies between two characters.
pub open spec fn insert_settled(before: ConfigEditor, after: ConfigEditor, key: KeyEvent) -> bool {
    match key.code {
        KeyCode::Up => becomes(before, after, vertical(before, -1), Some(aim(before) as usize)),
        KeyCode::Down => becomes(before, after, vertical(before, 1), Some(aim(before) as usize)),
        KeyCode::PageUp => becomes(
            before,
            after,
            vertical(before, -page_rows(before)),
            Some(aim(before) as usize),
        ),
        KeyCode::PageDown => becomes(
            before,
            after,
            vertical(before, page_rows(before)),
            Some(aim(before) as usize),
        ),
        _ => {
            let (c, result) = inserted(before.caret(), key);
            let (history, idx) = if may_change(key.code) {
                noted(texts(before.history@), before.history_idx as int, before.text@)
            } else {
                (texts(before.history@), before.history_idx as int)
            };
            &&& after == ConfigEditor {
                text: after.text,
                cursor: after.cursor,
                history: after.history,
                history_idx: idx as usize,
                insert_mode: if result == EditorInsertResult::ExitInsert {
                    false
                } else {
                    before.insert_mode
                },
                goal_column: None,
                ..before
            }
            &&& texts(after.history@) == history
            &&& after.text@ == c.text
            &&& after.cursor == offset(c.text, c.at)
        },
    }
}

/// Keys in insert mode.
pub fn handle_config_editor_insert_key(e: &mut ConfigEditor, key: KeyEvent)
    requires
        old(e).wf() || (old(e).adrift() && adrift_insert(key)),
    ensures
        insert_after(*old(e), *final(e), key),
        old(e).wf() ==> final(e).wf(),
        final(e).wf() || final(e).adrift(),
        old(e).history@.len() <= HISTORY_LIMIT ==> final(e).history@.len() <= HISTORY_LIMIT,
{
    if !between_characters(e) {
        match key.code {
            KeyCode::Left => step_out(e, false),
            KeyCode::Right => step_out(e, true),
            KeyCode::Esc => e.insert_mode = false,
            KeyCode::Char(_) => record_config_history(e),
            _ => {},
        }
        e.goal_column = None;
        return ;
    }
    match key.code {
        KeyCode::Up => {
            move_config_editor_vertical(e, -1);
            return ;
        },
        KeyCode::Down => {
            move_config_editor_vertical(e, 1);
            return ;
        },
        KeyCode::PageUp => {
            move_config_editor_page(e, true);
            return ;
        },
        KeyCode::PageDown => {
            move_config_editor_page(e, false);
            return ;
        },
        _ => {},
    }
    if matches!(
        key.code,
        KeyCode::Backspace | KeyCode::Delete | KeyCode::Enter | KeyCode::Tab | KeyCode::Char(_)
    ) {
        record_config_history(e);
    }
    match apply_editor_insert_key(&mut e.text, &mut e.cursor, key) {
        EditorInsertResult::ExitInsert => e.insert_mode = false,
        EditorInsertResult::Ignored | EditorInsertResult::Moved | EditorInsertResult::Changed => {},
    }
    e.goal_column = None;
}

/// What a key asks for beyond the editor.
#[derive(Clone, Copy, Debug, PartialEq, Eq, Structural)]
pub enum ConfigRequest {
    Nothing,
    /// Check and write the text, and leave the editor where `quit`;
    /// [`config_saved`].
    Save { quit: bool },
    /// Read the file anew; [`config_discarded`].
    Discard,
}

/// The character before the caret of a text line, or the caret where the line
/// starts.
pub open spec fn left_in_line(c: Caret) -> Caret {
    if c.at > 0 && c.text[c.at - 1] != '\n' {
        c.moved(c.at - 1)
    } else {
        c
    }
}

/// The caret behind the next character, unless the line ends.
pub open spec fn right_in_line(c: Caret) -> Caret {
    if c.at < c.text.len() && c.text[c.at] != '\n' {
        c.moved(c.at + 1)
    } else {
        c
    }
}

/// Whether an earlier or later text is shown again, the caret as far as it has it.
pub open spec fn restored(before: ConfigEditor, after: ConfigEditor, idx: int) -> bool {
    let text = before.history@[idx]@;
    &&& after == ConfigEditor {
        text: after.text,
        cursor: min(before.cursor as int, byte_len(text) as int) as usize,
        history_idx: idx as usize,
        goal_column: None,
        ..before
    }
    &&& after.text@ == text
}

/// Whether a key shows another text in normal mode. The caret keeps its place in
/// bytes, which may lie within a character of that text.
pub open spec fn restores(key: KeyEvent) -> bool {
    key.code == KeyCode::Char('u') || key.code == KeyCode::Char('r')
}

/// What a key does in normal mode to the editor.
pub open spec fn normal_after(before: ConfigEditor, after: ConfigEditor, key: KeyEvent) -> bool {
    let c = before.caret();
    let control = key.modifiers.control;
    match key.code {
        KeyCode::Esc => after == ConfigEditor { focused: false, ..before },
        KeyCode::Char('i') => after == ConfigEditor {
            insert_mode: true,
            goal_column: None,
            ..before
        },
        KeyCode::Char(':') => after == (ConfigEditor { command: after.command, ..before })
            && opt_text(after.command) == Some(Seq::<char>::empty()),
        KeyCode::Left | KeyCode::Char('h') => if before.adrift() {
            stepped_out(before, after, false)
        } else {
            becomes(
                before,
                after,
                if control {
                    c.moved(word_left(classes_of(c.text), c.at))
                } else {
                    left_in_line(c)
                },
                None,
            )
        },
        KeyCode::Right | KeyCode::Char('l') => if before.adrift() {
            stepped_out(before, after, true)
        } else {
            becomes(
                before,
                after,
                if control {
                    c.moved(word_right(classes_of(c.text), c.at))
                } else {
                    right_in_line(c)
                },
                None,
            )
        },
        KeyCode::Home => becomes(before, after, c.moved(line_start(c.text, c.at)), None),
        KeyCode::End => becomes(before, after, c.moved(line_end(c.text, c.at)), None),
        KeyCode::Up | KeyCode::Char('k') => becomes(
            before,
            after,
            c.moved(line_up(c.text, c.at)),
            None,
        ),
        KeyCode::Down | KeyCode::Char('j') => becomes(
            before,
            after,
            c.moved(line_down(c.text, c.at)),
            None,
        ),
        KeyCode::PageUp => becomes(
            before,
            after,
            vertical(before, -page_rows(before)),
            Some(aim(before) as usize),
        ),
        KeyCode::PageDown => becomes(
            before,
            after,
            vertical(before, page_rows(before)),
            Some(aim(before) as usize),
        ),
        KeyCode::Char('x') => if c.at < c.text.len() {
            let (history, idx) = noted(
                texts(before.history@),
                before.history_idx as int,
                before.text@,
            );
            &&& after == ConfigEditor {
                text: after.text,
                history: after.history,
                history_idx: idx as usize,
                goal_column: None,
                ..before
            }
            &&& texts(after.history@) == history
            &&& after.text@ == c.deleted().text
        } else {
            after == ConfigEditor { goal_column: None, ..before }
        },
        KeyCode::Char('u') => if before.history_idx > 0 && before.history@.len() > 0 {
            restored(before, after, before.history_idx - 1)
        } else {
            after == ConfigEditor { goal_column: None, ..before }
        },
        KeyCode::Char('r') => if !control {
            after == before
        } else if before.history_idx + 1 < before.history@.len() {
            restored(before, after, before.history_idx + 1)
        } else {
            after == ConfigEditor { goal_column: None, ..before }
        },
        KeyCode::Char('q') => after == ConfigEditor {
            focused: false,
            goal_column: None,
            ..before
        },
        _ => after == before,
    }
}

fn restore(e: &mut ConfigEditor, idx: usize)
    requires
        idx < old(e).history@.len(),
    ensures
        restored(*old(e), *final(e), idx as int),
        final(e).wf() || final(e).adrift(),
{
    e.history_idx = idx;
    e.text = e.history[idx].clone();
    let n: usize = text_len(e.text.as_str());
    if e.cursor > n {
        e.cursor = n;
    }
    proof {
        crate::text::lemma_boundary_ends(e.text@);
    }
    e.goal_column = None;
}

fn handle_normal_key(e: &mut ConfigEditor, key: KeyEvent)
    requires
        old(e).wf() || (old(e).adrift() && adrift_normal(key)),
    ensures
        normal_after(*old(e), *final(e), key),
        old(e).wf() && !restores(key) ==> final(e).wf(),
        final(e).wf() || final(e).adrift(),
        old(e).history@.len() <= HISTORY_LIMIT ==> final(e).history@.len() <= HISTORY_LIMIT,
{
    let control: bool = key.modifiers.control;
    if !between_characters(e) {
        match key.code {
            KeyCode::Left | KeyCode::Char('h') => {
                step_out(e, false);
                return ;
            },
            KeyCode::Right | KeyCode::Char('l') => {
                step_out(e, true);
                return ;
            },
            _ => {},
        }
    }
    proof {
        if is_boundary(e.text@, e.cursor as int) {
            crate::text::lemma_boundary(e.text@, e.cursor as int);
        }
    }
    match key.code {
        KeyCode::Esc => e.focused = false,
        KeyCode::Char('i') => {
            e.insert_mode = true;
            e.goal_column = None;
        },
        KeyCode::Char(':') => {
            let empty = String::new();
            assert(empty@ =~= Seq::empty());
            e.command = Some(empty);
        },
        KeyCode::Left | KeyCode::Char('h') => {
            if control {
                e.cursor = prev_word_boundary(e.text.as_str(), e.cursor);
            } else {
                let chars = to_chars(e.text.as_str());
                let at: usize = caret_at(&chars, e.cursor);
                if at > 0 && chars[at - 1] != '\n' {
                    e.cursor = byte_offset(&chars, at - 1);
                }
            }
            e.goal_column = None;
        },
        KeyCode::Right | KeyCode::Char('l') => {
            if control {
                e.cursor = next_word_boundary(e.text.as_str(), e.cursor);
            } else {
                let chars = to_chars(e.text.as_str());
                let at: usize = caret_at(&chars, e.cursor);
                if at < chars.len() && chars[at] != '\n' {
                    e.cursor = byte_offset(&chars, at + 1);
                }
            }
            e.goal_column = None;
        },
        KeyCode::Home => {
            e.cursor = config_editor_line_start(e.text.as_str(), e.cursor);
            e.goal_column = None;
        },
        KeyCode::End => {
            e.cursor = config_editor_line_end(e.text.as_str(), e.cursor);
            e.goal_column = None;
        },
        KeyCode::Up | KeyCode::Char('k') => {
            let chars = to_chars(e.text.as_str());
            let at: usize = caret_at(&chars, e.cursor);
            let to: usize = line_up_index(&chars, at);
            e.cursor = byte_offset(&chars, to);
            e.goal_column = None;
        },
        KeyCode::Down | KeyCode::Char('j') => {
            let chars = to_chars(e.text.as_str());
            let at: usize = caret_at(&chars, e.cursor);
            let to: usize = line_down_index(&chars, at);
            e.cursor = byte_offset(&chars, to);
            e.goal_column = None;
        },
        KeyCode::PageUp => move_config_editor_page(e, true),
        KeyCode::PageDown => move_config_editor_page(e, false),
        KeyCode::Char('x') => {
            let mut chars = to_chars(e.text.as_str());
            let at: usize = caret_at(&chars, e.cursor);
            if at < chars.len() {
                record_config_history(e);
                let ghost before = chars@;
                cut_range(&mut chars, at, at + 1);
                proof {
                    assert(chars@.take(at as int) =~= before.take(at as int));
                    crate::text::lemma_index_at(chars@, at as int);
                }
                e.text = crate::text::from_chars(&chars);
            }
            e.goal_column = None;
        },
        KeyCode::Char('u') => {
            if e.history_idx > 0 && e.history.len() > 0 {
                restore(e, e.history_idx - 1);
            }
            e.goal_column = None;
        },
        KeyCode::Char('r') => {
            if control {
                if e.history.len() > 0 && e.history_idx < e.history.len() - 1 {
                    restore(e, e.history_idx + 1);
                }
                e.goal_column = None;
            }
        },
        KeyCode::Char('q') => {
            e.focused = false;
            e.goal_column = None;
        },
        _ => {},
    }
}

/// What a key does while a command is typed, and what it asks for.
pub open spec fn command_after(
    before: ConfigEditor,
    after: ConfigEditor,
    typed: Seq<char>,
    key: KeyEvent,
    request: ConfigRequest,
) -> bool {
    match key.code {
        KeyCode::Esc => after == (ConfigEditor { command: None, ..before }) && request
            == ConfigRequest::Nothing,
        KeyCode::Char(c) => after == (ConfigEditor { command: after.command, ..before })
            && opt_text(after.command) == Some(typed.push(c)) && request == ConfigRequest::Nothing,
        KeyCode::Backspace => after == (ConfigEditor { command: after.command, ..before })
            && opt_text(after.command) == Some(
            if typed.len() > 0 {
                typed.drop_last()
            } else {
                typed
            },
        ) && request == ConfigRequest::Nothing,
        KeyCode::Enter => after == (ConfigEditor { command: None, ..before }) && request == (
        if trimmed(typed) == "w"@ {
            ConfigRequest::Save { quit: false }
        } else if trimmed(typed) == "wq"@ {
            ConfigRequest::Save { quit: true }
        } else if trimmed(typed) == "q"@ {
            ConfigRequest::Discard
        } else {
            ConfigRequest::Nothing
        }),
        _ => after == before && request == ConfigRequest::Nothing,
    }
}

fn handle_command_key(e: &mut ConfigEditor, typed: String, key: KeyEvent) -> (r: ConfigRequest)
    requires
        old(e).command == Some(typed),
    ensures
        command_after(*old(e), *final(e), typed@, key, r),
{
    match key.code {
        KeyCode::Esc => {
            e.command = None;
            ConfigRequest::Nothing
        },
        KeyCode::Char(c) => {
            let mut typed = typed;
            push_char(&mut typed, c);
            e.command = Some(typed);
            ConfigRequest::Nothing
        },
        KeyCode::Backspace => {
            let chars = to_chars(typed.as_str());
            if chars.len() > 0 {
                let n: usize = chars.len() - 1;
                assert(chars@.subrange(0, n as int) =~= chars@.drop_last());
                e.command = Some(from_range(&chars, 0, n));
            }
            ConfigRequest::Nothing
        },
        KeyCode::Enter => {
            e.command = None;
            let word = trim(typed.as_str());
            let w: &str = word.as_str();
            proof {
                reveal_strlit("w");
                reveal_strlit("wq");
                reveal_strlit("q");
            }
            if same_text(w, "w") {
                ConfigRequest::Save { quit: false }
            } else if same_text(w, "wq") {
                ConfigRequest::Save { quit: true }
            } else if same_text(w, "q") {
                ConfigRequest::Discard
            } else {
                ConfigRequest::Nothing
            }
        },
        _ => ConfigRequest::Nothing,
    }
}

/// What a key does in the configuration editor, and what it asks for.
pub open spec fn config_key_handled(
    before: (App, ConfigEditor),
    after: (App, ConfigEditor),
    key: KeyEvent,
    request: ConfigRequest,
) -> bool {
    let e = before.1;
    match e.command {
        Some(typed) => after.0 == before.0 && command_after(e, after.1, typed@, key, request),
        None => {
            &&& request == ConfigRequest::Nothing
            &&& if e.insert_mode {
                after.0 == before.0 && insert_after(e, after.1, key)
            } else if key.code == KeyCode::Char('?') {
                after == (dispatched(before.0, Command::ToggleHelp), e)
            } else {
                &&& after.0 == if key.code == KeyCode::Char('q') {
                    App { content_focused: false, ..before.0 }
                } else {
                    before.0
                }
                &&& normal_after(e, after.1, key)
            }
        },
    }
}

/// Keys of the configuration editor.
pub fn handle_config_editor_key(app: &mut App, e: &mut ConfigEditor, key: KeyEvent) -> (r:
    ConfigRequest)
    requires
        old(e).takes(key),
    ensures
        config_key_handled((*old(app), *old(e)), (*final(app), *final(e)), key, r),
        old(e).wf() && (old(e).command is Some || old(e).insert_mode || !restores(key))
            ==> final(e).wf(),
        final(e).wf() || final(e).adrift(),
        old(e).history@.len() <= HISTORY_LIMIT ==> final(e).history@.len() <= HISTORY_LIMIT,
{
    let command: Option<String> = crate::model::copy_opt(&e.command);
    match command {
        Some(typed) => return handle_command_key(e, typed, key),
        None => {},
    }
    if e.insert_mode {
        handle_config_editor_insert_key(e, key);
        return ConfigRequest::Nothing;
    }
    if matches!(key.code, KeyCode::Char('?')) {
        app.dispatch(Command::ToggleHelp);
        return ConfigRequest::Nothing;
    }
    handle_normal_key(e, key);
    if matches!(key.code, KeyCode::Char('q')) {
        app.content_focused = false;
    }
    ConfigRequest::Nothing
}

/// How writing the configuration ended.
#[derive(Debug)]
pub enum SaveOutcome {
    /// The text is no configuration.
    Invalid(String),
    /// The configuration could not be put into words.
    Unwritable(String),
    /// The file could not be written.
    WriteFailed(String),
    /// The file was written as `text`, and the configuration applied or not.
    Saved { text: String, applied: Result<(), String> },
}

/// The error that stands after an attempt to save.
pub open spec fn save_error(outcome: SaveOutcome) -> Option<Seq<char>> {
    match outcome {
        SaveOutcome::Invalid(e) => Some("Invalid TOML: "@ + e@),
        SaveOutcome::Unwritable(e) => Some("Serialization failed: "@ + e@),
        SaveOutcome::WriteFailed(e) => Some("Write failed: "@ + e@),
        SaveOutcome::Saved { applied, .. } => match applied {
            Ok(_) => None,
            Err(e) => Some("Apply failed: "@ + e@),
        },
    }
}

/// What becomes of the editor after an attempt to save.
pub open spec fn save_shown(before: ConfigEditor, after: ConfigEditor, outcome: SaveOutcome, left: bool) -> bool {
    let calm = ConfigEditor { focused: before.focused, ..after };
    &&& after.focused == (before.focused && !left)
    &&& match outcome {
        SaveOutcome::Saved { text, .. } => buffer_reset(before, calm, text@, save_error(outcome)),
        _ => calm == (ConfigEditor { error: after.error, ..before }) && opt_text(after.error)
            == save_error(outcome),
    }
}

/// Takes in how writing the configuration ended. The editor is left where that was
/// asked for and nothing went wrong. Tells whether the library has to be indexed
/// anew.
pub fn config_saved(app: &mut App, e: &mut ConfigEditor, outcome: SaveOutcome, quit: bool) -> (reindex:
    bool)
    ensures
        ({
            let left = quit && save_error(outcome) is None;
            &&& reindex == save_error(outcome) is None
            &&& save_shown(*old(e), *final(e), outcome, left)
            &&& *final(app) == (App {
                toast: final(app).toast,
                content_focused: old(app).content_focused && !left,
                ..*old(app)
            })
            &&& if outcome is Saved {
                opt_text(final(app).toast) == Some("Configuration saved and applied."@)
            } else {
                final(app).toast == old(app).toast
            }
        }),
{
    match outcome {
        SaveOutcome::Invalid(error) => {
            e.error = Some(concat("Invalid TOML: ", error.as_str()));
            false
        },
        SaveOutcome::Unwritable(error) => {
            e.error = Some(concat("Serialization failed: ", error.as_str()));
            false
        },
        SaveOutcome::WriteFailed(error) => {
            e.error = Some(concat("Write failed: ", error.as_str()));
            false
        },
        SaveOutcome::Saved { text, applied } => {
            reset_config_editor_buffer(e, text);
            app.toast = Some("Configuration saved and applied.".to_owned());
            match applied {
                Ok(_) => {
                    if quit {
                        e.focused = false;
                        app.content_focused = false;
                    }
                    true
                },
                Err(error) => {
                    e.error = Some(concat("Apply failed: ", error.as_str()));
                    false
                },
            }
        },
    }
}

/// Leaves the editor without saving: the text of the file is back.
pub fn config_discarded(app: &mut App, e: &mut ConfigEditor, read: Result<String, String>)
    ensures
        *final(app) == (App { content_focused: false, ..*old(app) }),
        !final(e).focused,
        match read {
            Ok(text) => buffer_reset(
                *old(e),
                (ConfigEditor { focused: old(e).focused, ..*final(e) }),
                text@,
                None,
            ),
            Err(error) => buffer_reset(
                *old(e),
                (ConfigEditor { focused: old(e).focused, ..*final(e) }),
                Seq::empty(),
                Some("Could not reload configuration: "@ + error@),
            ),
        },
{
    reload_config_editor_buffer(e, read);
    e.focused = false;
    app.content_focused = false;
}

/// The number of a line, at least three characters wide, and a space.
pub open spec fn line_label(n: nat) -> Seq<char> {
    let digits = decimal(n);
    Seq::new(
        if digits.len() < 3 {
            (3 - digits.len()) as nat
        } else {
            0
        },
        |i: int| ' ',
    ) + digits + seq![' ']
}

/// Row `r` of a line that wraps at `w` columns, behind the number of the line or
/// behind space.
pub open spec fn line_row(line: Seq<char>, r: int, w: int, number: nat) -> Seq<char> {
    (if r == 0 {
        line_label(number)
    } else {
        seq![' ', ' ', ' ', ' ']
    }) + line.subrange(r * w, min(r * w + w, line.len() as int))
}

/// The first `rows` rows of a line.
pub open spec fn line_rows(line: Seq<char>, rows: int, w: int, number: nat) -> Seq<Seq<char>>
    decreases rows,
{
    if rows <= 0 {
        Seq::empty()
    } else {
        line_rows(line, rows - 1, w, number).push(line_row(line, rows - 1, w, number))
    }
}

/// The rows of a text from the line start `start` on, whose line has a number.
pub open spec fn view_rows(s: Seq<char>, start: int, w: int, number: nat) -> Seq<Seq<char>>
    decreases s.len() + 1 - start,
    via view_rows_decreases
{
    if start < 0 || start > s.len() {
        Seq::empty()
    } else {
        let end = line_end(s, start);
        let line = s.subrange(start, end);
        line_rows(line, wrap_rows(line.len() as int, w), w, number) + view_rows(
            s,
            end + 1,
            w,
            number + 1,
        )
    }
}

#[via_fn]
proof fn view_rows_decreases(s: Seq<char>, start: int, w: int, number: nat) {
    if 0 <= start <= s.len() {
        crate::editor::lemma_line_end(s, start);
    }
}

fn make_label(n: u64) -> (r: String)
    ensures
        r@ == line_label(n as nat),
{
    let digits = to_decimal(n);
    let chars = to_chars(digits.as_str());
    let mut r = String::new();
    let width: usize = chars.len();
    let mut k: usize = width;
    let ghost pad = |i: int| ' ';
    assert(r@ =~= Seq::new(0, pad));
    while k < 3
        invariant
            width == chars@.len(),
            width <= k,
            k <= 3 || k == width,
            pad == (|i: int| ' '),
            r@ == Seq::new((k - width) as nat, pad),
        decreases 3 - k,
    {
        push_char(&mut r, ' ');
        k = k + 1;
        assert(r@ =~= Seq::new((k - width) as nat, pad));
    }
    r = concat(r.as_str(), digits.as_str());
    push_char(&mut r, ' ');
    assert(r@ =~= line_label(n as nat));
    r
}

/// The rows of the editor as they are shown, and the place of the caret.
#[derive(Debug)]
pub struct ConfigEditorView {
    pub lines: Vec<String>,
    pub cursor_row: usize,
    pub cursor_col: usize,
}

/// Where the view has to be scrolled to, so that the caret is seen.
pub open spec fn scrolled_to(scroll: int, row: int, height: int) -> int {
    if row < scroll {
        row
    } else if height > 0 && row >= scroll + height {
        row - height + 1
    } else {
        scroll
    }
}

/// The caret is in view afterwards, and a view that shows it already stays.
pub proof fn lemma_caret_in_view(scroll: int, row: int, height: int)
    requires
        0 <= scroll,
        0 <= row,
        0 < height,
    ensures
        ({
            let to = scrolled_to(scroll, row, height);
            &&& to <= row < to + height
            &&& scroll <= row < scroll + height ==> to == scroll
        }),
{
}

/// Lays the text of an editor out: numbered lines that wrap at `wrap_width`, with
/// tabs expanded.
pub fn build_config_editor_view(
    text: &str,
    cursor: usize,
    wrap_width: usize,
    viewport_height: usize,
    scroll: &mut usize,
) -> (r: ConfigEditorView)
    requires
        byte_len(expanded(text@, 4)) < usize::MAX,
        *old(scroll) + viewport_height <= usize::MAX,
    ensures
        ({
            let w = max(wrap_width as int, 1);
            let shown = expanded(text@, 4);
            let at = if crate::editor::caret_ok(text@, cursor as int) {
                expanded(text@.take(crate::editor::caret(text@, cursor as int)), 4).len() as int
            } else {
                0
            };
            let place = visual_position(shown, at, w);
            &&& (r.cursor_row as int, r.cursor_col as int) == place
            &&& *final(scroll) == scrolled_to(
                *old(scroll) as int,
                place.0,
                viewport_height as int,
            )
            &&& texts(r.lines@) == view_rows(shown, 0, w, 1)
        }),
{
    let w: usize = if wrap_width == 0 {
        1
    } else {
        wrap_width
    };
    let (shown, at) = expand_tabs_for_editor_view(text, cursor, 4);
    proof {
        lemma_shown_caret(text@, cursor as int, at as int);
    }
    let (cursor_row, cursor_col) = cursor_visual_position(shown.as_str(), at, w);
    if cursor_row < *scroll {
        *scroll = cursor_row;
    } else if viewport_height > 0 && cursor_row >= *scroll + viewport_height {
        *scroll = cursor_row - viewport_height + 1;
    }
    let chars = to_chars(shown.as_str());
    let n: usize = chars.len();
    let mut lines: Vec<String> = Vec::new();
    let mut start: usize = 0;
    let mut number: u64 = 1;
    let ghost all = view_rows(chars@, 0, w as int, 1);
    assert(texts(lines@) + all =~= all);
    proof {
        crate::text::lemma_offset_ends(chars@);
    }
    loop
        invariant_except_break
            start <= n,
            number <= start + 1,
            texts(lines@) + view_rows(chars@, start as int, w as int, number as nat) == all,
        invariant
            n == chars@.len(),
            n < usize::MAX,
            w >= 1,
        ensures
            texts(lines@) == all,
        decreases n - start,
    {
        let ghost before = texts(lines@);
        let mut end: usize = start;
        while end < n && chars[end] != '\n'
            invariant
                start <= end <= n == chars@.len(),
                line_end(chars@, start as int) == line_end(chars@, end as int),
            decreases n - end,
        {
            end = end + 1;
        }
        let len: usize = end - start;
        let ghost line = chars@.subrange(start as int, end as int);
        let rows: usize = config_editor_wrap_rows(len, w);
        let mut row: usize = 0;
        assert(before + line_rows(line, 0, w as int, number as nat) =~= before);
        while row < rows
            invariant
                row <= rows,
                rows == wrap_rows(len as int, w as int),
                start <= end <= n == chars@.len(),
                len == end - start,
                line == chars@.subrange(start as int, end as int),
                w >= 1,
                texts(lines@) == before + line_rows(line, row as int, w as int, number as nat),
            decreases rows - row,
        {
            let prefix = if row == 0 {
                make_label(number)
            } else {
                let mut s = String::new();
                push_char(&mut s, ' ');
                push_char(&mut s, ' ');
                push_char(&mut s, ' ');
                push_char(&mut s, ' ');
                assert(s@ =~= seq![' ', ' ', ' ', ' ']);
                s
            };
            proof {
                crate::editor::lemma_row_fits(row as int, len as int, w as int, w as int);
            }
            let from: usize = row * w;
            let to: usize = if len - from < w {
                len
            } else {
                from + w
            };
            let segment = from_range(&chars, start + from, start + to);
            proof {
                assert(chars@.subrange(start + from, start + to) =~= line.subrange(
                    from as int,
                    to as int,
                ));
            }
            let ghost so_far = texts(lines@);
            lines.push(concat(prefix.as_str(), segment.as_str()));
            proof {
                assert(lines@.last()@ == line_row(line, row as int, w as int, number as nat));
                assert(texts(lines@) =~= so_far.push(lines@.last()@));
                assert(texts(lines@) =~= before + line_rows(
                    line,
                    row + 1,
                    w as int,
                    number as nat,
                ));
            }
            row = row + 1;
        }
        let ghost rest = view_rows(chars@, end + 1, w as int, (number + 1) as nat);
        proof {
            assert(before + (line_rows(line, rows as int, w as int, number as nat) + rest) =~= texts(
                lines@,
            ) + rest);
        }
        if end == n {
            assert(rest =~= Seq::empty());
            assert(texts(lines@) + rest =~= texts(lines@));
            break ;
        }
        start = end + 1;
        number = number + 1;
    }
    ConfigEditorView { lines, cursor_row, cursor_col }
}

proof fn lemma_shown_caret(s: Seq<char>, cursor: int, at: int)
    requires
        is_boundary(expanded(s, 4), at),
        crate::editor::caret_ok(s, cursor) ==> at == byte_len(
            expanded(s.take(crate::editor::caret(s, cursor)), 4),
        ),
        !crate::editor::caret_ok(s, cursor) ==> at == 0,
    ensures
        crate::editor::caret_ok(expanded(s, 4), at),
        crate::editor::caret(expanded(s, 4), at) == (if crate::editor::caret_ok(s, cursor) {
            expanded(s.take(crate::editor::caret(s, cursor)), 4).len() as int
        } else {
            0
        }),
{
    let e = expanded(s, 4);
    crate::text::lemma_boundary_ends(e);
    if crate::editor::caret_ok(s, cursor) {
        let k = crate::editor::caret(s, cursor);
        crate::editor::lemma_expanded_take(s, 4, k);
        let p = expanded(s.take(k), 4);
        assert(e.take(p.len() as int) == p);
        crate::text::lemma_index_at(e, p.len() as int);
    }
}

/// Going back shows the text before the current one, and going on shows that one again.
/// What is noted of earlier texts stays.
pub proof fn lemma_going_on_takes_back_going_back(
    before: ConfigEditor,
    mid: ConfigEditor,
    after: ConfigEditor,
    back: KeyEvent,
    on: KeyEvent,
)
    requires
        before.history_ok(),
        before.history_idx > 0,
        before.history@.len() > 0,
        back.code == KeyCode::Char('u'),
        on.code == KeyCode::Char('r'),
        on.modifiers.control,
        normal_after(before, mid, back),
        normal_after(mid, after, on),
    ensures
        mid.text@ == before.history@[before.history_idx - 1]@,
        mid.history == before.history,
        after.text@ == before.history@[before.history_idx as int]@,
        after.history_idx == before.history_idx,
        after.history == before.history,
{
}

/// A text that is new is noted behind the current one. What came after that one is
/// forgotten, and so is the oldest where there are fifty.
pub proof fn lemma_new_text_is_noted(
    earlier: Seq<Seq<char>>,
    current: Seq<char>,
    later: Seq<Seq<char>>,
    text: Seq<char>,
)
    ensures
        ({
            let (history, idx) = noted(
                earlier + seq![current] + later,
                earlier.len() as int,
                text,
            );
            &&& text == current ==> history == earlier + seq![current] + later && idx
                == earlier.len()
            &&& text != current && earlier.len() + 2 <= 50 ==> history == earlier + seq![
                current,
                text,
            ]
            &&& text != current && earlier.len() + 2 == 51 ==> history == earlier.drop_first()
                + seq![current, text]
            &&& text != current ==> idx == history.len() - 1
        }),
        noted(Seq::empty(), 0, text) == (seq![text], 0int),
{
    let all = earlier + seq![current] + later;
    let n = earlier.len() as int;
    assert(all[n] == current);
    assert(all.take(n + 1).push(text) =~= earlier + seq![current, text]);
    if earlier.len() > 0 {
        assert((earlier + seq![current, text]).drop_first() =~= earlier.drop_first() + seq![
            current,
            text,
        ]);
    }
    assert(Seq::<Seq<char>>::empty().take(0).push(text) =~= seq![text]);
}

/// A command is typed letter by letter, and taken when it is entered: `w` writes the
/// text, `wq` writes it and leaves, and `q` leaves without. White space around it says
/// nothing.
pub proof fn lemma_commands_are_taken(
    before: ConfigEditor,
    after: ConfigEditor,
    typed: Seq<char>,
    key: KeyEvent,
    request: ConfigRequest,
    a: Seq<char>,
    name: Seq<char>,
    b: Seq<char>,
)
    requires
        command_after(before, after, typed, key, request),
        typed == a + name + b,
        forall|i: int| 0 <= i < a.len() ==> whitespace(#[trigger] a[i]),
        forall|i: int| 0 <= i < b.len() ==> whitespace(#[trigger] b[i]),
        name.len() > 0,
        !whitespace(name[0]),
        !whitespace(name.last()),
    ensures
        after.text == before.text,
        after.cursor == before.cursor,
        key.code == KeyCode::Enter ==> after.command is None && request == (if name == seq!['w'] {
            ConfigRequest::Save { quit: false }
        } else if name == seq!['w', 'q'] {
            ConfigRequest::Save { quit: true }
        } else if name == seq!['q'] {
            ConfigRequest::Discard
        } else {
            ConfigRequest::Nothing
        }),
        key.code == KeyCode::Esc ==> after.command is None && request == ConfigRequest::Nothing,
        forall|c: char|
            key.code == KeyCode::Char(c) ==> opt_text(after.command) == Some(
                #[trigger] typed.push(c),
            ) && request == ConfigRequest::Nothing,
        key.code == KeyCode::Backspace ==> opt_text(after.command) == Some(
            typed.take(typed.len() - 1),
        ),
{
    crate::strings::lemma_trimmed_inside(a, name, b);
    reveal_strlit("w");
    reveal_strlit("wq");
    reveal_strlit("q");
    assert("w"@ =~= seq!['w']);
    assert("wq"@ =~= seq!['w', 'q']);
    assert("q"@ =~= seq!['q']);
    assert(typed.drop_last() =~= typed.take(typed.len() - 1));
}

/// In normal mode `x` takes out the character behind the caret, and `h` and `l` stay on
/// their line.
pub proof fn lemma_normal_keys_of_the_editor(
    before: ConfigEditor,
    after: ConfigEditor,
    key: KeyEvent,
    a: Seq<char>,
    ch: char,
    b: Seq<char>,
)
    requires
        before.wf(),
        normal_after(before, after, key),
        !key.modifiers.control,
        before.text@ == a.push(ch) + b,
    ensures
        key.code == KeyCode::Char('x') && before.cursor == byte_len(a) ==> after.text@ == a + b
            && after.cursor == before.cursor,
        key.code == KeyCode::Char('l') && before.cursor == byte_len(a) ==> after.text@
            == before.text@ && after.cursor == if ch == '\n' {
            byte_len(a)
        } else {
            byte_len(a.push(ch))
        },
        key.code == KeyCode::Char('h') && before.cursor == byte_len(a.push(ch)) ==> after.text@
            == before.text@ && after.cursor == if ch == '\n' {
            byte_len(a.push(ch))
        } else {
            byte_len(a)
        },
        key.code == KeyCode::Char('i') ==> after.insert_mode && after.text == before.text
            && after.cursor == before.cursor,
{
    let t = a.push(ch) + b;
    let n = a.len() as int;
    crate::field::lemma_caret_between(a, seq![ch] + b);
    assert(a + (seq![ch] + b) =~= t);
    crate::field::lemma_caret_between(a.push(ch), b);
    assert(t[n] == ch);
    assert(t.take(n) =~= a);
    assert(t.skip(n + 1) =~= b);
    assert(!before.adrift());
}

/// What an attempt to save says. Only a text that was written takes the place of the one
/// in the editor; otherwise that one stays as it is.
pub proof fn lemma_failed_save_keeps_the_text(
    before: ConfigEditor,
    after: ConfigEditor,
    outcome: SaveOutcome,
    left: bool,
)
    requires
        save_shown(before, after, outcome, left),
    ensures
        !(outcome is Saved) ==> after.text == before.text && after.cursor == before.cursor
            && after.history == before.history && after.error is Some,
        outcome matches SaveOutcome::Saved { text, applied, .. } ==> after.text@ == text@
            && after.cursor == 0 && (after.error is None <==> applied is Ok),
        left ==> !after.focused,
        !left ==> after.focused == before.focused,
{
}

/// The texts of rows without the number or the space that each starts with.
pub open spec fn unlabelled(rows: Seq<Seq<char>>, label: int) -> Seq<char>
    decreases rows.len(),
{
    if rows.len() == 0 {
        Seq::empty()
    } else {
        unlabelled(rows.drop_last(), label) + rows.last().skip(
            if rows.len() == 1 {
                label
            } else {
                4
            },
        )
    }
}

/// The rows of a line hold it whole and in order, behind its number in the first of them
/// and behind space in the others. None is wider than the screen.
pub proof fn lemma_rows_hold_the_line(line: Seq<char>, w: int, number: nat)
    requires
        w > 0,
    ensures
        ({
            let rows = line_rows(line, wrap_rows(line.len() as int, w), w, number);
            let label = line_label(number).len() as int;
            &&& rows.len() >= 1
            &&& unlabelled(rows, label) == line
            &&& rows[0].take(label) == line_label(number)
            &&& forall|i: int|
                1 <= i < rows.len() ==> (#[trigger] rows[i]).len() <= 4 + w && rows[i].take(4)
                    == seq![' ', ' ', ' ', ' ']
            &&& rows[0].len() <= label + w
        }),
{
    let n = line.len() as int;
    let r = wrap_rows(n, w);
    assert(r >= 1 && r * w >= n && (n > 0 ==> (r - 1) * w < n)) by (nonlinear_arith)
        requires
            w > 0,
            n >= 0,
            r == (if n == 0 {
                1
            } else if n % w == 0 {
                n / w
            } else {
                n / w + 1
            }),
    ;
    assert((r - 1) * w <= n) by {
        if n == 0 {
            assert((1 - 1) * w == 0) by (nonlinear_arith);
        }
    }
    lemma_first_rows(line, r, w, number);
    assert(line.take(min(r * w, n)) =~= line);
}

proof fn lemma_first_rows(line: Seq<char>, r: int, w: int, number: nat)
    requires
        w > 0,
        1 <= r,
        (r - 1) * w <= line.len(),
    ensures
        ({
            let rows = line_rows(line, r, w, number);
            let label = line_label(number).len() as int;
            &&& rows.len() == r
            &&& unlabelled(rows, label) == line.take(min(r * w, line.len() as int))
            &&& rows[0].take(label) == line_label(number)
            &&& forall|i: int|
                1 <= i < rows.len() ==> (#[trigger] rows[i]).len() <= 4 + w && rows[i].take(4)
                    == seq![' ', ' ', ' ', ' ']
            &&& rows[0].len() <= label + w
        }),
    decreases r,
{
    let n = line.len() as int;
    let label = line_label(number).len() as int;
    let last = line_row(line, r - 1, w, number);
    let before = line_rows(line, r - 1, w, number);
    let rows = line_rows(line, r, w, number);
    let from = (r - 1) * w;
    let part = line.subrange(from, min(from + w, n));
    assert(from + w == r * w) by (nonlinear_arith)
        requires
            from == (r - 1) * w,
    ;
    assert(from >= 0) by (nonlinear_arith)
        requires
            from == (r - 1) * w,
            r >= 1,
            w > 0,
    ;
    assert(rows =~= before.push(last));
    assert(rows.drop_last() =~= before);
    if r == 1 {
        assert(before =~= Seq::<Seq<char>>::empty());
        assert(from == 0) by (nonlinear_arith)
            requires
                from == (r - 1) * w,
                r == 1,
        ;
        assert(last == line_label(number) + part);
        assert(last.skip(label) =~= part);
        assert(last.take(label) =~= line_label(number));
        assert(unlabelled(before, label) =~= Seq::<char>::empty());
        assert(unlabelled(rows, label) =~= line.take(min(r * w, n)));
    } else {
        assert((r - 2) * w <= n) by (nonlinear_arith)
            requires
                (r - 1) * w <= n,
                w > 0,
        ;
        lemma_first_rows(line, r - 1, w, number);
        assert(last == seq![' ', ' ', ' ', ' '] + part);
        assert(last.skip(4) =~= part);
        assert(last.take(4) =~= seq![' ', ' ', ' ', ' ']);
        assert(line.take(from) + part =~= line.take(min(r * w, n)));
        assert(rows[0] == before[0]);
        assert forall|i: int| 1 <= i < rows.len() implies (#[trigger] rows[i]).len() <= 4 + w
            && rows[i].take(4) == seq![' ', ' ', ' ', ' '] by {
            if i < r - 1 {
                assert(rows[i] == before[i]);
            }
        }
    }
}

} // verus!
