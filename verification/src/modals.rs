//! Keys of the inputs and prompts that lie over a section.

use crate::action::{act, ActionView, UiAction};
use crate::chars::whitespace;
use crate::edit::{caret_of, edit_changes, edit_text, edited, Caret};
use crate::keys::{KeyCode, KeyEvent};
use crate::model::{
    App, AppMode, Command, CollectionSummary, DeletionTarget, DiscoveryState, LibraryPaper,
    MetadataPrompt, NotesState, Page, PaperNote, RemotePaper, WorkspaceSearchState,
};
use crate::navigation::{dispatched, row_above, row_below, select_above, select_below, select_row,
    with_mode, with_selected};
use crate::strings::{is_blank, opt_text, same_text, trim, trimmed};
use crate::text::{byte_len, is_boundary, min, offset, text_len};
use crate::workspaces::{
    no_page, only_toast, open_arxiv_page, opt_url, remote_paper, remote_target,
    selected_remote_paper, selected_remote_target,
};
use vstd::prelude::*;

verus! {

/// A text field after a key.
pub open spec fn field_edited(
    text: String,
    cursor: usize,
    new_text: String,
    new_cursor: usize,
    key: KeyEvent,
) -> bool {
    let after = edited(caret_of(text@, cursor as int), key);
    new_text@ == after.text && new_cursor == offset(after.text, after.at)
}

/// The same with the caret of the search input behind its text.
pub open spec fn at_search_input(app: App) -> App {
    App {
        mode: AppMode::Search,
        discovery: DiscoveryState {
            query_cursor: byte_len(app.discovery.query@) as usize,
            ..app.discovery
        },
        ..app
    }
}

/// The same with the caret of the filter input behind its text.
pub open spec fn at_filter_input(app: App) -> App {
    App {
        mode: AppMode::DiscoverFilter,
        discovery: DiscoveryState {
            filter_cursor: byte_len(app.discovery.filter@) as usize,
            ..app.discovery
        },
        ..app
    }
}

/// The search query has been edited, and nothing else.
pub open spec fn query_edited(before: App, after: App, key: KeyEvent) -> bool {
    &&& after == App {
        discovery: DiscoveryState {
            query: after.discovery.query,
            query_cursor: after.discovery.query_cursor,
            ..before.discovery
        },
        ..before
    }
    &&& field_edited(
        before.discovery.query,
        before.discovery.query_cursor,
        after.discovery.query,
        after.discovery.query_cursor,
        key,
    )
}

/// Whether Enter starts a search.
pub open spec fn submits_search(app: App, key: KeyEvent) -> bool {
    key.code == KeyCode::Enter && trimmed(app.discovery.query@).len() > 0
}

/// What a key does in the search input.
pub open spec fn search_after(before: App, after: App, key: KeyEvent) -> bool {
    let has_results = before.discovery.results@.len() > 0;
    let control = key.modifiers.control;
    if key.code == KeyCode::Esc {
        after == with_mode(before, AppMode::Normal)
    } else if key.code == KeyCode::Down {
        after == if has_results {
            App {
                mode: AppMode::Normal,
                discovery: DiscoveryState { selected: 0, ..before.discovery },
                ..before
            }
        } else {
            before
        }
    } else if key.code == KeyCode::Right && !control && has_results
        && before.discovery.query_cursor == byte_len(before.discovery.query@) {
        after == at_filter_input(before)
    } else if key.code == KeyCode::Left && !control && before.discovery.query_cursor == 0 {
        after == App { content_focused: false, mode: AppMode::Normal, ..before }
    } else if submits_search(before, key) {
        &&& after == App {
            mode: AppMode::Normal,
            discovery: DiscoveryState { query: after.discovery.query, ..before.discovery },
            ..before
        }
        &&& after.discovery.query@ == trimmed(before.discovery.query@)
    } else {
        query_edited(before, after, key)
    }
}

/// Keys of the search input.
pub fn handle_search_key(app: &mut App, key: KeyEvent) -> (r: Option<UiAction>)
    requires
        is_boundary(old(app).discovery.query@, old(app).discovery.query_cursor as int),
    ensures
        search_after(*old(app), *final(app), key),
        act(r) == (if submits_search(*old(app), key) {
            Some(ActionView::Search(trimmed(old(app).discovery.query@)))
        } else {
            None
        }),
{
    let has_results: bool = app.discovery.results.len() > 0;
    match key.code {
        KeyCode::Esc => {
            app.mode = AppMode::Normal;
            return None;
        },
        KeyCode::Down => {
            if has_results {
                app.mode = AppMode::Normal;
                app.discovery.selected = 0;
            }
            return None;
        },
        KeyCode::Right => {
            if !key.modifiers.control && has_results && app.discovery.query_cursor == text_len(
                app.discovery.query.as_str(),
            ) {
                app.mode = AppMode::DiscoverFilter;
                app.discovery.filter_cursor = text_len(app.discovery.filter.as_str());
                return None;
            }
        },
        KeyCode::Left => {
            if !key.modifiers.control && app.discovery.query_cursor == 0 {
                app.content_focused = false;
                app.mode = AppMode::Normal;
                return None;
            }
        },
        KeyCode::Enter => {
            if !is_blank(app.discovery.query.as_str()) {
                let query = trim(app.discovery.query.as_str());
                app.discovery.query = query.clone();
                app.mode = AppMode::Normal;
                return Some(UiAction::Search(query));
            }
        },
        _ => {},
    }
    let _ = edit_text(&mut app.discovery.query, &mut app.discovery.query_cursor, key);
    None
}

/// What a key does in the filter input.
pub open spec fn filter_after(before: App, after: App, key: KeyEvent) -> bool {
    let d = before.discovery;
    let control = key.modifiers.control;
    if d.results@.len() == 0 || key.code == KeyCode::Esc || key.code == KeyCode::Char('>') {
        after == with_mode(before, AppMode::Normal)
    } else if key.code == KeyCode::Up || (key.code == KeyCode::Left && !control && d.filter_cursor
        == 0) {
        after == at_search_input(before)
    } else if key.code == KeyCode::Down || key.code == KeyCode::Enter {
        after == App {
            mode: AppMode::Normal,
            discovery: DiscoveryState {
                selected: min(
                    d.selected as int,
                    if d.page_len() == 0 {
                        0
                    } else {
                        d.page_len() - 1
                    },
                ) as usize,
                ..d
            },
            ..before
        }
    } else if key.code == KeyCode::Right && !control && d.filter_cursor == byte_len(d.filter@) {
        after == with_mode(before, AppMode::Normal)
    } else {
        let now = after.discovery;
        &&& field_edited(d.filter, d.filter_cursor, now.filter, now.filter_cursor, key)
        &&& after == App {
            discovery: if edit_changes(caret_of(d.filter@, d.filter_cursor as int), key) {
                DiscoveryState {
                    filter: now.filter,
                    filter_cursor: now.filter_cursor,
                    page: 0,
                    selected: 0,
                    scroll: 0,
                    ..d
                }
            } else {
                DiscoveryState { filter: now.filter, filter_cursor: now.filter_cursor, ..d }
            },
            ..before
        }
    }
}

/// Keys of the filter input.
pub fn handle_discover_filter_key(app: &mut App, key: KeyEvent) -> (r: Option<UiAction>)
    requires
        is_boundary(old(app).discovery.filter@, old(app).discovery.filter_cursor as int),
    ensures
        filter_after(*old(app), *final(app), key),
        r is None,
{
    if app.discovery.results.len() == 0 {
        app.mode = AppMode::Normal;
        return None;
    }
    match key.code {
        KeyCode::Esc | KeyCode::Char('>') => {
            app.mode = AppMode::Normal;
            return None;
        },
        KeyCode::Up => {
            app.mode = AppMode::Search;
            app.discovery.query_cursor = text_len(app.discovery.query.as_str());
            return None;
        },
        KeyCode::Down | KeyCode::Enter => {
            app.mode = AppMode::Normal;
            let len: usize = app.discovery.visible_page_len();
            let last: usize = if len == 0 {
                0
            } else {
                len - 1
            };
            if app.discovery.selected > last {
                app.discovery.selected = last;
            }
            return None;
        },
        KeyCode::Left => {
            if !key.modifiers.control && app.discovery.filter_cursor == 0 {
                app.mode = AppMode::Search;
                app.discovery.query_cursor = text_len(app.discovery.query.as_str());
                return None;
            }
        },
        KeyCode::Right => {
            if !key.modifiers.control && app.discovery.filter_cursor == text_len(
                app.discovery.filter.as_str(),
            ) {
                app.mode = AppMode::Normal;
                return None;
            }
        },
        _ => {},
    }
    let changed: bool = edit_text(
        &mut app.discovery.filter,
        &mut app.discovery.filter_cursor,
        key,
    );
    if changed {
        app.discovery.rebuild_filter();
    }
    None
}

/// The local search of the open section is closed.
pub open spec fn search_closed(app: App) -> App {
    App {
        mode: AppMode::Normal,
        search: WorkspaceSearchState {
            active: app.search.active.with(app.page, false),
            ..app.search
        },
        ..app
    }
}

/// What a key does in the local search.
pub open spec fn workspace_search_after(before: App, after: App, key: KeyEvent) -> bool {
    if key.code == KeyCode::Esc {
        after == search_closed(before)
    } else if key.code == KeyCode::Char('>') || key.code == KeyCode::Enter {
        after == App { content_focused: true, ..search_closed(before) }
    } else if key.code == KeyCode::Down {
        let closed = App { content_focused: true, ..search_closed(before) };
        after == if crate::navigation::searchable(before.page) {
            with_selected(closed, 0)
        } else {
            closed
        }
    } else if key.code == KeyCode::Left && !key.modifiers.control && before.search.query_cursor
        == 0 {
        after == App { content_focused: false, mode: AppMode::Normal, ..before }
    } else {
        &&& after == App {
            search: WorkspaceSearchState {
                query: after.search.query,
                query_cursor: after.search.query_cursor,
                ..before.search
            },
            ..before
        }
        &&& field_edited(
            before.search.query,
            before.search.query_cursor,
            after.search.query,
            after.search.query_cursor,
            key,
        )
    }
}

/// Keys of the local search.
pub fn handle_workspace_search_key(app: &mut App, key: KeyEvent) -> (r: Option<UiAction>)
    requires
        is_boundary(old(app).search.query@, old(app).search.query_cursor as int),
    ensures
        workspace_search_after(*old(app), *final(app), key),
        r is None,
{
    match key.code {
        KeyCode::Esc => {
            app.mode = AppMode::Normal;
            app.search.active.set(app.page, false);
            return None;
        },
        KeyCode::Char('>') | KeyCode::Enter => {
            app.mode = AppMode::Normal;
            app.content_focused = true;
            app.search.active.set(app.page, false);
            return None;
        },
        KeyCode::Down => {
            app.mode = AppMode::Normal;
            app.content_focused = true;
            app.search.active.set(app.page, false);
            if matches!(
                app.page,
                Page::Library | Page::ReadingQueue | Page::Collections | Page::Bookmarks
                    | Page::Authors | Page::Notes | Page::Downloads
            ) {
                select_row(app, 0);
            }
            return None;
        },
        KeyCode::Left => {
            if !key.modifiers.control && app.search.query_cursor == 0 {
                app.mode = AppMode::Normal;
                app.content_focused = false;
                return None;
            }
        },
        _ => {},
    }
    let _ = edit_text(&mut app.search.query, &mut app.search.query_cursor, key);
    None
}

/// Whether a key agrees to a deletion.
pub open spec fn agrees(code: KeyCode) -> bool {
    code == KeyCode::Char('y') || code == KeyCode::Char('Y') || code == KeyCode::Enter
}

/// Whether a key refuses a deletion.
pub open spec fn refuses(code: KeyCode) -> bool {
    code == KeyCode::Char('n') || code == KeyCode::Char('N') || code == KeyCode::Esc || code
        == KeyCode::Char('q')
}

/// The deletion that was agreed to.
pub open spec fn deletion(target: DeletionTarget) -> ActionView {
    match target {
        DeletionTarget::Project { project } => ActionView::DeleteProject(project@),
        DeletionTarget::Paper { id, title, path } => ActionView::DeletePaper {
            paper_id: id,
            path: opt_text(path),
        },
        DeletionTarget::Collection { id, name, path } => ActionView::DeleteCollection {
            collection_id: id,
            path: opt_text(path),
        },
        DeletionTarget::ProjectEntry { path, name, is_directory } =>
            ActionView::DeleteProjectEntry(path@),
    }
}

/// Keys of the question before a deletion: nothing is deleted unless the user
/// agrees.
pub fn handle_confirm_delete_key(app: &mut App, key: KeyEvent) -> (r: Option<UiAction>)
    ensures
        act(r) == (match old(app).delete_confirmation {
            Some(target) => if agrees(key.code) {
                Some(deletion(target))
            } else {
                None
            },
            None => None,
        }),
        *final(app) == (if agrees(key.code) && old(app).delete_confirmation is None {
            *old(app)
        } else if agrees(key.code) || refuses(key.code) {
            App { delete_confirmation: None, mode: AppMode::Normal, ..*old(app) }
        } else {
            *old(app)
        }),
{
    match key.code {
        KeyCode::Char('y' | 'Y') | KeyCode::Enter => {
            match app.delete_confirmation.take() {
                None => None,
                Some(target) => {
                    app.mode = AppMode::Normal;
                    match target {
                        DeletionTarget::Project { project } => Some(
                            UiAction::DeleteProject(project),
                        ),
                        DeletionTarget::Paper { id, title, path } => Some(
                            UiAction::DeletePaper { paper_id: id, path },
                        ),
                        DeletionTarget::Collection { id, name, path } => Some(
                            UiAction::DeleteCollection { collection_id: id, path },
                        ),
                        DeletionTarget::ProjectEntry { path, name, is_directory } => Some(
                            UiAction::DeleteProjectEntry(path),
                        ),
                    }
                },
            }
        },
        KeyCode::Char('n' | 'N' | 'q') | KeyCode::Esc => {
            app.delete_confirmation = None;
            app.mode = AppMode::Normal;
            None
        },
        _ => None,
    }
}

/// The name that a prompt stands for when it is confirmed: what was typed, or
/// the selected group where nothing was typed for a paper.
pub open spec fn confirmed_value(prompt: MetadataPrompt, groups: Seq<CollectionSummary>) -> Seq<
    char,
> {
    if trimmed(prompt.value@).len() == 0 && prompt.rename_collection_id is None
        && prompt.paper_id is Some && prompt.selected < groups.len() {
        groups[prompt.selected as int].name@
    } else {
        prompt.value@
    }
}

/// What a key of the prompt asks for.
pub open spec fn prompt_action(app: App, key: KeyEvent) -> Option<ActionView> {
    match app.prompt {
        Some(prompt) => if key.code == KeyCode::Enter {
            Some(
                ActionView::SubmitPrompt(
                    crate::action::PromptView {
                        value: confirmed_value(prompt, app.collections.items@),
                        ..prompt@
                    },
                ),
            )
        } else {
            None
        },
        None => None,
    }
}

/// What a key does in the prompt.
pub open spec fn prompt_after(before: App, after: App, key: KeyEvent) -> bool {
    if key.code == KeyCode::Esc || key.code == KeyCode::Enter {
        after == App { prompt: None, mode: before.modal_return, ..before }
    } else {
        match before.prompt {
            None => after == before,
            Some(p) => {
                &&& after == App { prompt: after.prompt, ..before }
                &&& after.prompt is Some
                &&& if key.code == KeyCode::Down {
                    after.prompt->0 == MetadataPrompt {
                        selected: row_below(p.selected, before.collections.items@.len() as int),
                        ..p
                    }
                } else if key.code == KeyCode::Up {
                    after.prompt->0 == MetadataPrompt { selected: row_above(p.selected), ..p }
                } else {
                    let q = after.prompt->0;
                    &&& q == MetadataPrompt { value: q.value, cursor: q.cursor, ..p }
                    &&& field_edited(p.value, p.cursor, q.value, q.cursor, key)
                }
            },
        }
    }
}

/// Keys of the prompt.
fn handle_prompt_key(app: &mut App, key: KeyEvent) -> (r: Option<UiAction>)
    requires
        old(app).prompt matches Some(p) ==> is_boundary(p.value@, p.cursor as int),
    ensures
        prompt_after(*old(app), *final(app), key),
        act(r) == prompt_action(*old(app), key),
{
    let prompt: Option<MetadataPrompt> = app.prompt.take();
    match prompt {
        None => {
            if matches!(key.code, KeyCode::Esc | KeyCode::Enter) {
                app.mode = app.modal_return;
            }
            None
        },
        Some(p) => {
            let mut p: MetadataPrompt = p;
            match key.code {
                KeyCode::Esc => {
                    app.mode = app.modal_return;
                    None
                },
                KeyCode::Enter => {
                    if is_blank(p.value.as_str()) && p.rename_collection_id.is_none()
                        && p.paper_id.is_some() && p.selected < app.collections.items.len() {
                        p.value = app.collections.items[p.selected].name.clone();
                    }
                    app.mode = app.modal_return;
                    Some(UiAction::SubmitPrompt(p))
                },
                KeyCode::Down => {
                    p.selected = select_below(p.selected, app.collections.items.len());
                    app.prompt = Some(p);
                    None
                },
                KeyCode::Up => {
                    p.selected = select_above(p.selected);
                    app.prompt = Some(p);
                    None
                },
                _ => {
                    let _ = edit_text(&mut p.value, &mut p.cursor, key);
                    app.prompt = Some(p);
                    None
                },
            }
        },
    }
}

/// The note in the editor, to be saved.
pub open spec fn saved_note(app: App) -> Option<ActionView> {
    match app.notes.editor {
        Some(note) => Some(ActionView::SaveNote(note@)),
        None => None,
    }
}

/// The text of a note after a key that goes to the editor.
pub open spec fn note_edited(c: Caret, key: KeyEvent) -> Caret {
    if key.code == KeyCode::Enter {
        c.typed('\n')
    } else {
        edited(c, key)
    }
}

/// What a key does in the editor or the preview of a note.
pub open spec fn note_after(before: App, after: App, key: KeyEvent) -> bool {
    let n = before.notes;
    if key.code == KeyCode::Tab {
        after == App { notes: NotesState { preview: !n.preview, scroll: 0, ..n }, ..before }
    } else if key.code == KeyCode::Esc {
        after == with_mode(before, before.modal_return)
    } else if n.preview {
        after == if key.code == KeyCode::Down || key.code == KeyCode::Char('j') {
            App {
                notes: NotesState {
                    scroll: min(n.scroll + 1, usize::MAX as int) as usize,
                    ..n
                },
                ..before
            }
        } else if key.code == KeyCode::Up || key.code == KeyCode::Char('k') {
            App { notes: NotesState { scroll: row_above(n.scroll), ..n }, ..before }
        } else {
            before
        }
    } else {
        match n.editor {
            None => after == before,
            Some(note) => {
                let now = note_edited(caret_of(note.body@, note.cursor as int), key);
                &&& after == App {
                    notes: NotesState { editor: after.notes.editor, ..n },
                    ..before
                }
                &&& after.notes.editor matches Some(m) && m == PaperNote {
                    body: m.body,
                    cursor: m.cursor,
                    ..note
                } && m.body@ == now.text && m.cursor == offset(now.text, now.at)
            },
        }
    }
}

/// Whether a key changes the text of the note, so that it is saved.
pub open spec fn note_changes(app: App, key: KeyEvent) -> bool {
    !app.notes.preview && (app.notes.editor matches Some(note) && (key.code == KeyCode::Enter
        || edit_changes(caret_of(note.body@, note.cursor as int), key)))
}

/// Keys of the editor and the preview of a note. Every change is saved.
fn handle_note_key(app: &mut App, key: KeyEvent) -> (r: Option<UiAction>)
    requires
        old(app).notes.editor matches Some(note) ==> is_boundary(note.body@, note.cursor as int),
    ensures
        note_after(*old(app), *final(app), key),
        act(r) == (if key.code == KeyCode::Tab {
            None
        } else if key.code == KeyCode::Esc || note_changes(*old(app), key) {
            saved_note(*final(app))
        } else {
            None
        }),
{
    if matches!(key.code, KeyCode::Tab) {
        app.notes.preview = !app.notes.preview;
        app.notes.scroll = 0;
        return None;
    }
    if matches!(key.code, KeyCode::Esc) {
        app.mode = app.modal_return;
        return match &app.notes.editor {
            Some(note) => Some(UiAction::SaveNote(note.copy())),
            None => None,
        };
    }
    if app.notes.preview {
        match key.code {
            KeyCode::Char('j') | KeyCode::Down => {
                app.notes.scroll = app.notes.scroll.saturating_add(1);
            },
            KeyCode::Char('k') | KeyCode::Up => {
                app.notes.scroll = select_above(app.notes.scroll);
            },
            _ => {},
        }
        return None;
    }
    match app.notes.editor.take() {
        None => None,
        Some(note) => {
            let mut note: PaperNote = note;
            let changed: bool = if matches!(key.code, KeyCode::Enter) {
                let newline = KeyEvent {
                    code: KeyCode::Char('\n'),
                    modifiers: crate::keys::KeyModifiers::none(),
                    kind: key.kind,
                };
                edit_text(&mut note.body, &mut note.cursor, newline)
            } else {
                edit_text(&mut note.body, &mut note.cursor, key)
            };
            let action: Option<UiAction> = if changed {
                Some(UiAction::SaveNote(note.copy()))
            } else {
                None
            };
            app.notes.editor = Some(note);
            action
        },
    }
}

/// Keys of the prompt and of the note editor.
pub fn handle_modal_key(app: &mut App, key: KeyEvent) -> (r: Option<UiAction>)
    requires
        old(app).prompt matches Some(p) ==> is_boundary(p.value@, p.cursor as int),
        old(app).notes.editor matches Some(note) ==> is_boundary(note.body@, note.cursor as int),
    ensures
        old(app).mode == AppMode::Prompt ==> prompt_after(*old(app), *final(app), key) && act(r)
            == prompt_action(*old(app), key),
        old(app).mode != AppMode::Prompt ==> note_after(*old(app), *final(app), key) && act(r) == (
        if key.code == KeyCode::Tab {
            None
        } else if key.code == KeyCode::Esc || note_changes(*old(app), key) {
            saved_note(*final(app))
        } else {
            None
        }),
{
    if app.mode == AppMode::Prompt {
        handle_prompt_key(app, key)
    } else {
        handle_note_key(app, key)
    }
}

/// Whether a paper of the library is the file of an online paper.
pub open spec fn is_download_of(local: LibraryPaper, remote: RemotePaper) -> bool {
    local.pdf_path is Some && (opt_text(local.arxiv_id) == Some(remote.id@) || (remote.doi is Some
        && opt_text(local.doi) == opt_text(remote.doi)))
}

/// The first paper from position `i` on that is the file of an online paper.
pub open spec fn download_of(papers: Seq<LibraryPaper>, remote: RemotePaper, i: int) -> Option<
    LibraryPaper,
>
    decreases papers.len() - i,
{
    if i >= papers.len() {
        None
    } else if is_download_of(papers[i], remote) {
        Some(papers[i])
    } else {
        download_of(papers, remote, i + 1)
    }
}

fn has_text(a: &Option<String>, b: &str) -> (r: bool)
    ensures
        r == (opt_text(*a) == Some(b@)),
{
    match a {
        Some(s) => same_text(s.as_str(), b),
        None => false,
    }
}

/// The paper of the library that is the file of an online paper.
pub fn downloaded_remote_paper<'a>(papers: &'a Vec<LibraryPaper>, remote: &RemotePaper) -> (r:
    Option<&'a LibraryPaper>)
    ensures
        r is Some <==> download_of(papers@, *remote, 0) is Some,
        r matches Some(p) ==> download_of(papers@, *remote, 0) == Some(*p),
{
    let mut i: usize = 0;
    while i < papers.len()
        invariant
            i <= papers@.len(),
            download_of(papers@, *remote, 0) == download_of(papers@, *remote, i as int),
        decreases papers@.len() - i,
    {
        let same_doi: bool = match &remote.doi {
            Some(doi) => has_text(&papers[i].doi, doi.as_str()),
            None => false,
        };
        if papers[i].pdf_path.is_some() && (same_doi || has_text(
            &papers[i].arxiv_id,
            remote.id.as_str(),
        )) {
            return Some(&papers[i]);
        }
        i = i + 1;
    }
    None
}

/// Whether a key is left alone in the details of an online paper.
pub open spec fn detail_ignored(app: App, code: KeyCode) -> bool {
    (app.page == Page::Dashboard || app.page == Page::Discover) && (match code {
        KeyCode::Char(c) => c == 'B' || c == 'n' || c == 't' || c == 'g',
        _ => false,
    })
}

/// The reference of the selected online paper.
pub open spec fn detail_reference(app: App) -> Option<Seq<char>> {
    match remote_paper(app) {
        Some(p) => Some(p.id@),
        None => None,
    }
}

/// What a key asks for in the details of a paper.
pub open spec fn detail_action(app: App, code: KeyCode) -> Option<ActionView> {
    if detail_ignored(app, code) {
        None
    } else {
        match code {
            KeyCode::Char('d') => match remote_paper(app) {
                Some(p) => Some(ActionView::Download(p@)),
                None => None,
            },
            KeyCode::Char('c') => match remote_target(app) {
                Some(t) => Some(ActionView::CopyCitation(t)),
                None => None,
            },
            KeyCode::Char('o') => match opt_url(detail_reference(app)) {
                Some(url) => Some(ActionView::OpenBrowser(url)),
                None => None,
            },
            KeyCode::Enter => match remote_paper(app) {
                Some(p) => match download_of(app.library.papers@, p, 0) {
                    Some(local) => crate::workspaces::open_action(local),
                    None => None,
                },
                None => None,
            },
            KeyCode::Char('n') => match remote_target(app) {
                Some(t) => Some(ActionView::OpenNote(t)),
                None => None,
            },
            KeyCode::Char('g') => match remote_target(app) {
                Some(t) => Some(ActionView::Prompt(t)),
                None => None,
            },
            KeyCode::Char('B') => match remote_target(app) {
                Some(t) => Some(ActionView::Bookmark(t)),
                None => None,
            },
            _ => None,
        }
    }
}

/// What a key changes in the details of a paper.
pub open spec fn detail_after(before: App, after: App, code: KeyCode) -> bool {
    if code == KeyCode::Char('?') {
        after == dispatched(before, Command::ToggleHelp)
    } else if detail_ignored(before, code) {
        after == before
    } else {
        match code {
            KeyCode::Esc | KeyCode::Left | KeyCode::Char('h') | KeyCode::Char('q') => after
                == dispatched(before, Command::Back),
            KeyCode::Down | KeyCode::Char('j') => after == App {
                paper_detail_scroll: min(
                    before.paper_detail_scroll + 1,
                    usize::MAX as int,
                ) as usize,
                ..before
            },
            KeyCode::Up | KeyCode::Char('k') => after == App {
                paper_detail_scroll: row_above(before.paper_detail_scroll),
                ..before
            },
            KeyCode::Char('o') => if opt_url(detail_reference(before)) is None {
                only_toast(before, after, no_page())
            } else {
                after == before
            },
            KeyCode::Char('n') | KeyCode::Char('g') => after == App {
                modal_return: AppMode::PaperDetail,
                ..before
            },
            _ => after == before,
        }
    }
}

/// Keys of the details of a paper.
pub fn handle_paper_detail_key(app: &mut App, key: KeyEvent) -> (r: Option<UiAction>)
    ensures
        detail_after(*old(app), *final(app), key.code),
        act(r) == detail_action(*old(app), key.code),
{
    if matches!(key.code, KeyCode::Char('?')) {
        app.dispatch(Command::ToggleHelp);
        return None;
    }
    if matches!(app.page, Page::Dashboard | Page::Discover) && matches!(
        key.code,
        KeyCode::Char('B' | 'n' | 't' | 'g')
    ) {
        return None;
    }
    match key.code {
        KeyCode::Esc | KeyCode::Left | KeyCode::Char('h' | 'q') => {
            app.dispatch(Command::Back);
            None
        },
        KeyCode::Char('j') | KeyCode::Down => {
            app.paper_detail_scroll = app.paper_detail_scroll.saturating_add(1);
            None
        },
        KeyCode::Char('k') | KeyCode::Up => {
            app.paper_detail_scroll = select_above(app.paper_detail_scroll);
            None
        },
        KeyCode::Char('d') => match selected_remote_paper(app) {
            Some(p) => Some(UiAction::Download(p.copy())),
            None => None,
        },
        KeyCode::Char('c') => match selected_remote_target(app) {
            Some(t) => Some(UiAction::CopyCitation(t)),
            None => None,
        },
        KeyCode::Char('o') => {
            let reference: Option<String> = match selected_remote_paper(app) {
                Some(p) => Some(p.id.clone()),
                None => None,
            };
            open_arxiv_page(app, reference)
        },
        KeyCode::Enter => match selected_remote_paper(app) {
            Some(p) => match downloaded_remote_paper(&app.library.papers, p) {
                Some(local) => match &local.pdf_path {
                    Some(path) => Some(
                        UiAction::OpenPdf { paper_id: local.id, path: path.clone() },
                    ),
                    None => None,
                },
                None => None,
            },
            None => None,
        },
        KeyCode::Char('n') => {
            app.modal_return = AppMode::PaperDetail;
            match selected_remote_target(app) {
                Some(t) => Some(UiAction::OpenNote(t)),
                None => None,
            }
        },
        KeyCode::Char('g') => {
            app.modal_return = AppMode::PaperDetail;
            match selected_remote_target(app) {
                Some(t) => Some(UiAction::Prompt(t)),
                None => None,
            }
        },
        KeyCode::Char('B') => match selected_remote_target(app) {
            Some(t) => Some(UiAction::Bookmark(t)),
            None => None,
        },
        _ => None,
    }
}

/// A search is for what was typed, without the white space around it. Where nothing else
/// was typed, none is started and what was typed stays.
pub proof fn lemma_typed_query_is_searched(
    before: App,
    after: App,
    key: KeyEvent,
    a: Seq<char>,
    query: Seq<char>,
    b: Seq<char>,
)
    requires
        search_after(before, after, key),
        key.code == KeyCode::Enter,
        is_boundary(before.discovery.query@, before.discovery.query_cursor as int),
        before.discovery.query@ == a + query + b,
        forall|i: int| 0 <= i < a.len() ==> whitespace(#[trigger] a[i]),
        forall|i: int| 0 <= i < b.len() ==> whitespace(#[trigger] b[i]),
        query.len() > 0 ==> !whitespace(query[0]) && !whitespace(query.last()),
    ensures
        submits_search(before, key) <==> query.len() > 0,
        query.len() > 0 ==> after.discovery.query@ == query && after.mode == AppMode::Normal,
        query.len() == 0 ==> after.discovery.query@ == a + b && after.mode == before.mode,
        after.discovery.results == before.discovery.results,
{
    let text = a + query + b;
    if query.len() > 0 {
        crate::strings::lemma_trimmed_inside(a, query, b);
    } else {
        assert(text =~= a + b);
        assert forall|k: int| 0 <= k < text.len() implies whitespace(#[trigger] text[k]) by {
            if k < a.len() {
                assert(text[k] == a[k]);
            } else {
                assert(text[k] == b[k - a.len()]);
            }
        }
        crate::strings::lemma_blank(text);
    }
}

/// A prompt hands over what was typed. Where nothing was typed for a paper, it hands over
/// the group that is selected.
pub proof fn lemma_prompt_hands_over_what_was_typed(app: App, key: KeyEvent, p: MetadataPrompt)
    requires
        app.prompt == Some(p),
    ensures
        key.code != KeyCode::Enter ==> prompt_action(app, key) is None,
        key.code == KeyCode::Enter ==> {
            let blank = forall|i: int| 0 <= i < p.value@.len() ==> whitespace(#[trigger] p.value@[i]);
            &&& prompt_action(app, key) matches Some(ActionView::SubmitPrompt(q)) && q.paper_id
                == p.paper_id && q.rename_collection_id == p.rename_collection_id && (!blank
                ==> q.value == p.value@) && (blank && p.paper_id is Some && p.rename_collection_id
                is None && p.selected < app.collections.items@.len() ==> q.value
                == app.collections.items@[p.selected as int].name@) && (blank && p.paper_id is None
                ==> q.value == p.value@)
        },
{
    crate::strings::lemma_blank(p.value@);
}

/// No change of a note is lost: where a key changes its text, the note is saved.
pub proof fn lemma_changed_note_is_saved(before: App, after: App, key: KeyEvent)
    requires
        note_after(before, after, key),
        before.notes.editor is Some,
        after.notes.editor is Some,
    ensures
        after.notes.editor->0.body@ != before.notes.editor->0.body@ ==> note_changes(before, key)
            && key.code != KeyCode::Tab,
        after.notes.editor->0.body@ != before.notes.editor->0.body@ ==> !before.notes.preview,
        key.code == KeyCode::Esc || key.code == KeyCode::Tab ==> after.notes.editor
            == before.notes.editor,
{
    let note = before.notes.editor->0;
    crate::edit::lemma_unchanged(caret_of(note.body@, note.cursor as int), key);
}

/// A paper of the library is the file of an online paper where it has a file and bears
/// the same arXiv identifier or the same DOI.
pub proof fn lemma_download_is_recognised(
    papers: Seq<LibraryPaper>,
    remote: RemotePaper,
)
    ensures
        ({
            let same = |p: LibraryPaper|
                p.pdf_path is Some && (p.arxiv_id is Some && p.arxiv_id->0@ == remote.id@
                    || p.doi is Some && remote.doi is Some && p.doi->0@ == remote.doi->0@);
            match download_of(papers, remote, 0) {
                Some(p) => same(p) && papers.contains(p),
                None => forall|i: int| 0 <= i < papers.len() ==> !same(#[trigger] papers[i]),
            }
        }),
{
    lemma_download_from(papers, remote, 0);
}

proof fn lemma_download_from(papers: Seq<LibraryPaper>, remote: RemotePaper, i: int)
    requires
        0 <= i <= papers.len(),
    ensures
        match download_of(papers, remote, i) {
            Some(p) => is_download_of(p, remote) && papers.contains(p),
            None => forall|k: int|
                i <= k < papers.len() ==> !is_download_of(#[trigger] papers[k], remote),
        },
    decreases papers.len() - i,
{
    if i < papers.len() {
        if is_download_of(papers[i], remote) {
            assert(papers.contains(papers[i]));
        } else {
            lemma_download_from(papers, remote, i + 1);
        }
    }
}

/// From the search input Down leads to the first result where there are results, Right
/// behind the text to the filter, and Left before it to the sidebar. What was typed stays,
/// and so it does with Escape.
pub proof fn lemma_search_input_is_left(before: App, after: App, key: KeyEvent)
    requires
        search_after(before, after, key),
        !key.modifiers.control,
        key.code == KeyCode::Esc || key.code == KeyCode::Down || key.code == KeyCode::Right
            && before.discovery.query_cursor == byte_len(before.discovery.query@) || key.code
            == KeyCode::Left && before.discovery.query_cursor == 0,
        is_boundary(before.discovery.query@, before.discovery.query_cursor as int),
    ensures
        after.discovery.query@ == before.discovery.query@,
        after.discovery.results == before.discovery.results,
        key.code == KeyCode::Esc ==> after.mode == AppMode::Normal,
        key.code == KeyCode::Down && before.discovery.results@.len() > 0 ==> after.mode
            == AppMode::Normal && after.discovery.selected == 0,
        key.code == KeyCode::Down && before.discovery.results@.len() == 0 ==> after == before,
        key.code == KeyCode::Right && before.discovery.results@.len() > 0 ==> after.mode
            == AppMode::DiscoverFilter && after.discovery.filter_cursor == byte_len(
            before.discovery.filter@,
        ) as usize,
        key.code == KeyCode::Right && before.discovery.results@.len() == 0 ==> after.mode
            == before.mode,
        key.code == KeyCode::Left ==> !after.content_focused && after.mode == AppMode::Normal,
{
    crate::edit::lemma_unchanged(
        caret_of(before.discovery.query@, before.discovery.query_cursor as int),
        key,
    );
}

/// From the filter Up leads back to the search input, and so does Left before its text.
/// Down and Enter lead to the results, and so do Right behind the text and Escape. The
/// filter stays.
pub proof fn lemma_filter_input_is_left(before: App, after: App, key: KeyEvent)
    requires
        filter_after(before, after, key),
        !key.modifiers.control,
        before.mode == AppMode::DiscoverFilter,
        before.discovery.results@.len() > 0,
        is_boundary(before.discovery.filter@, before.discovery.filter_cursor as int),
    ensures
        key.code == KeyCode::Up || key.code == KeyCode::Left && before.discovery.filter_cursor == 0
            ==> after.mode == AppMode::Search && after.discovery.filter
            == before.discovery.filter,
        key.code == KeyCode::Down || key.code == KeyCode::Enter || key.code == KeyCode::Esc
            || key.code == KeyCode::Right && before.discovery.filter_cursor == byte_len(
            before.discovery.filter@,
        ) ==> after.mode == AppMode::Normal && after.discovery.filter == before.discovery.filter,
        key.code == KeyCode::Right && before.discovery.filter_cursor < byte_len(
            before.discovery.filter@,
        ) || key.code == KeyCode::Left && before.discovery.filter_cursor > 0 || key.code
            == KeyCode::Home || key.code == KeyCode::End ==> after.mode == before.mode
            && after.discovery.filter@ == before.discovery.filter@ && after.discovery.selected
            == before.discovery.selected,
        key.code == KeyCode::Backspace && before.discovery.filter_cursor > 0 ==> after.mode
            == before.mode && after.discovery.page == 0 && after.discovery.selected == 0,
{
    let c = caret_of(before.discovery.filter@, before.discovery.filter_cursor as int);
    crate::edit::lemma_unchanged(c, key);
    crate::text::lemma_boundary(
        before.discovery.filter@,
        before.discovery.filter_cursor as int,
    );
    crate::text::lemma_offset_ends(before.discovery.filter@);
}

/// From a local search Enter leads to the rows with what was typed, and Down to the first
/// of them. Escape closes it, and Left before the text leads to the sidebar.
pub proof fn lemma_local_search_is_left(before: App, after: App, key: KeyEvent)
    requires
        workspace_search_after(before, after, key),
        !key.modifiers.control,
        before.page == Page::Library,
    ensures
        key.code == KeyCode::Esc || key.code == KeyCode::Enter || key.code == KeyCode::Down
            ==> after.mode == AppMode::Normal && after.search.query == before.search.query
            && !after.search.active.has(Page::Library),
        key.code == KeyCode::Enter ==> after.content_focused && after.library == before.library,
        key.code == KeyCode::Down ==> after.content_focused && after.library.selected == 0,
        key.code == KeyCode::Left && before.search.query_cursor == 0 ==> !after.content_focused
            && after.search == before.search,
{
}

} // verus!
