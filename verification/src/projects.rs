//! The projects workspace.

use crate::action::{act, ActionView, UiAction};
use crate::chars::{classes_of, is_whitespace, whitespace};
use crate::edit::{
    apply_editor_insert_key, caret_at, caret_of, cut_range, edit_text, edited, inserted, store,
    Caret, EditorInsertResult,
};
use crate::editor::{
    config_editor_line_end, config_editor_line_start, line_end, line_start, move_rows,
    next_word_boundary, prev_word_boundary, rows_moved, visual_position, word_left, word_right,
};
use crate::effect::{acting, effect_of, AfterSave, EffectView, KeyEffect};
use crate::keys::{KeyCode, KeyEvent, KeyModifiers};
use crate::model::{
    App, AppMode, Command, CompletionItem, Page, PdfState, Project, ProjectPane, ProjectState,
};
use crate::navigation::{dispatched, row_above, row_below, select_above, select_below};
use crate::paths::{
    extension_is, has_extension, name_shown, path_key, same_path, shown_name,
};
use crate::project_editor::{
    forgetful, handle_insert_key, handle_normal_key, insert_key_after,
    lemma_remembering_keeps_caret, normal_key_after, note_change, noted, remembering, snapshot_of,
};
use crate::strings::{concat, opt_text, same_text};
use crate::text::{byte_len, index_at, is_boundary, max, min, offset, text_len, to_chars};
use vstd::prelude::*;

verus! {

/// The same with another state of the projects.
pub open spec fn with_project(app: App, project: ProjectState) -> App {
    App { project, ..app }
}

/// The text and the caret of the project editor.
pub open spec fn editor_caret(p: ProjectState) -> Caret {
    caret_of(p.editor_text@, p.editor_cursor as int)
}

/// Whether the caret of the project editor lies between two characters.
pub open spec fn editor_ok(p: ProjectState) -> bool {
    is_boundary(p.editor_text@, p.editor_cursor as int)
}

/// Only text and caret of the project editor differ, and they are those of `c`.
pub open spec fn editor_becomes(before: ProjectState, after: ProjectState, c: Caret) -> bool {
    &&& after == ProjectState {
        editor_text: after.editor_text,
        editor_cursor: after.editor_cursor,
        ..before
    }
    &&& after.editor_text@ == c.text
    &&& after.editor_cursor == offset(c.text, c.at)
}

/// Whether a key selects a pane directly.
pub open spec fn pane_shortcut(key: KeyEvent) -> Option<ProjectPane> {
    if key.modifiers.alt {
        match key.code {
            KeyCode::Char('1') => Some(ProjectPane::FileTree),
            KeyCode::Char('2') => Some(ProjectPane::Editor),
            KeyCode::Char('3') => Some(ProjectPane::Preview),
            KeyCode::Char('4') => Some(ProjectPane::Build),
            _ => None,
        }
    } else {
        None
    }
}

/// Whether a pane has something to show.
pub open spec fn pane_available(app: App, pane: ProjectPane) -> bool {
    match pane {
        ProjectPane::ProjectList => true,
        ProjectPane::FileTree | ProjectPane::Build => app.project.active is Some,
        ProjectPane::Editor => app.project.active is Some && app.project.editor_path is Some,
        ProjectPane::Preview => app.pdf.viewer@ == "internal"@ && app.project.active is Some
            && app.pdf.path is Some && app.pdf.on_disk,
    }
}

/// Told to the user when a pane has nothing to show.
pub open spec fn pane_message(app: App, pane: ProjectPane) -> Seq<char> {
    match pane {
        ProjectPane::Editor => "Open a source file before focusing the editor."@,
        ProjectPane::Preview => if app.pdf.viewer@ != "internal"@ {
            "PDF preview is disabled when using an external viewer."@
        } else {
            "PDF preview is unavailable until the first successful build."@
        },
        _ => "Open a project before focusing this pane."@,
    }
}

/// A pane has been selected, or the user told why it has not.
pub open spec fn pane_focused(before: App, after: App, pane: ProjectPane) -> bool {
    if pane_available(before, pane) {
        after == with_project(before, ProjectState { pane, ..before.project })
    } else {
        &&& after == App { toast: after.toast, ..before }
        &&& opt_text(after.toast) == Some(pane_message(before, pane))
    }
}

/// Selects a pane, or tells why it cannot be selected.
pub fn focus_pane(app: &mut App, pane: ProjectPane)
    ensures
        pane_focused(*old(app), *final(app), pane),
{
    let internal: bool = same_text(app.pdf.viewer.as_str(), "internal");
    let available: bool = match pane {
        ProjectPane::ProjectList => true,
        ProjectPane::FileTree | ProjectPane::Build => app.project.active.is_some(),
        ProjectPane::Editor => app.project.active.is_some() && app.project.editor_path.is_some(),
        ProjectPane::Preview => internal && app.project.active.is_some() && app.pdf.path.is_some()
            && app.pdf.on_disk,
    };
    if available {
        app.project.pane = pane;
    } else {
        let message: &str = match pane {
            ProjectPane::Editor => "Open a source file before focusing the editor.",
            ProjectPane::Preview => {
                if !internal {
                    "PDF preview is disabled when using an external viewer."
                } else {
                    "PDF preview is unavailable until the first successful build."
                }
            },
            _ => "Open a project before focusing this pane.",
        };
        app.toast = Some(message.to_owned());
    }
}

/// Position of the first project from `i` on that lies at a path.
pub open spec fn project_at(items: Seq<Project>, path: Seq<char>, i: int) -> Option<int>
    decreases items.len() - i,
{
    if i >= items.len() {
        None
    } else if path_key(items[i].path@) == path_key(path) {
        Some(i)
    } else {
        project_at(items, path, i + 1)
    }
}

pub(crate) fn find_project(items: &Vec<Project>, path: &str) -> (r: Option<usize>)
    ensures
        r is Some <==> project_at(items@, path@, 0) is Some,
        r matches Some(i) ==> project_at(items@, path@, 0) == Some(i as int) && i < items@.len(),
{
    let mut i: usize = 0;
    while i < items.len()
        invariant
            i <= items@.len(),
            project_at(items@, path@, 0) == project_at(items@, path@, i as int),
        decreases items@.len() - i,
    {
        if same_path(items[i].path.as_str(), path) {
            return Some(i);
        }
        i = i + 1;
    }
    None
}

/// The row that the list of projects shows for the open one.
pub open spec fn row_of_active(p: ProjectState) -> usize {
    match p.active {
        Some(active) => match project_at(p.items@, active.path@, 0) {
            Some(i) => i as usize,
            None => p.selected,
        },
        None => p.selected,
    }
}

/// The project has been left for the list of projects.
pub open spec fn project_left(before: ProjectState, after: ProjectState) -> bool {
    &&& after == ProjectState {
        selected: row_of_active(before),
        editor_insert_mode: false,
        completions: after.completions,
        pane: ProjectPane::ProjectList,
        ..before
    }
    &&& after.completions@.len() == 0
}

/// Leaves the project for the list of projects.
pub fn leave_project(p: &mut ProjectState)
    ensures
        project_left(*old(p), *final(p)),
{
    let found: Option<usize> = match &p.active {
        Some(active) => find_project(&p.items, active.path.as_str()),
        None => None,
    };
    match found {
        Some(i) => p.selected = i,
        None => {},
    }
    p.editor_insert_mode = false;
    p.completions = Vec::new();
    p.pane = ProjectPane::ProjectList;
}

/// The file tree is shown in place of another pane.
pub open spec fn tree_shown(before: ProjectState, after: ProjectState) -> bool {
    &&& after == ProjectState {
        editor_insert_mode: false,
        completions: after.completions,
        pane: ProjectPane::FileTree,
        ..before
    }
    &&& after.completions@.len() == 0
}

/// Shows the file tree in place of another pane.
pub fn show_file_tree(p: &mut ProjectState)
    ensures
        tree_shown(*old(p), *final(p)),
{
    p.editor_insert_mode = false;
    p.completions = Vec::new();
    p.pane = ProjectPane::FileTree;
}

/// What the state becomes once the editor needs no saving any more.
pub open spec fn proceeded(before: App, after: App, next: AfterSave) -> bool {
    match next {
        AfterSave::Stay => after == before,
        AfterSave::Focus(pane) => pane_focused(before, after, pane),
        AfterSave::LeaveProject => after == with_project(before, after.project) && project_left(
            before.project,
            after.project,
        ),
        AfterSave::ShowFileTree => after == with_project(before, after.project) && tree_shown(
            before.project,
            after.project,
        ),
    }
}

fn proceed(app: &mut App, next: AfterSave)
    ensures
        proceeded(*old(app), *final(app), next),
{
    match next {
        AfterSave::Stay => {},
        AfterSave::Focus(pane) => focus_pane(app, pane),
        AfterSave::LeaveProject => leave_project(&mut app.project),
        AfterSave::ShowFileTree => show_file_tree(&mut app.project),
    }
}

/// The state after a successful save, before anything else.
pub open spec fn save_noted(before: App, after: App) -> bool {
    &&& after == App {
        toast: after.toast,
        project: ProjectState {
            editor_dirty: false,
            build_status: after.project.build_status,
            ..before.project
        },
        ..before
    }
    &&& opt_text(after.toast) == Some("Saved"@)
    &&& after.project.build_status@ == "Saved; latexmk watching…"@
}

/// Goes on after the text of the editor was written: with what was asked for,
/// or, where writing failed, with a message and nothing else.
pub fn project_saved(app: &mut App, result: Result<(), String>, next: AfterSave)
    ensures
        match result {
            Ok(_) => exists|mid: App|
                #![trigger save_noted(*old(app), mid)]
                save_noted(*old(app), mid) && proceeded(mid, *final(app), next),
            Err(error) => *final(app) == (App { toast: final(app).toast, ..*old(app) }) && opt_text(
                final(app).toast,
            ) == Some("Could not save file: "@ + error@),
        },
{
    match result {
        Ok(_) => {
            app.project.editor_dirty = false;
            app.project.build_status = "Saved; latexmk watching…".to_owned();
            app.toast = Some("Saved".to_owned());
            assert(save_noted(*old(app), *app));
            proceed(app, next);
        },
        Err(error) => {
            app.toast = Some(concat("Could not save file: ", error.as_str()));
        },
    }
}

/// Whether the editor has to be saved before its pane is left.
pub open spec fn must_save(p: ProjectState) -> bool {
    p.editor_dirty && p.editor_path is Some
}

/// Either the editor is saved first, or the next step is taken at once.
pub open spec fn saved_then(before: App, after: App, effect: EffectView, next: AfterSave) -> bool {
    if must_save(before.project) {
        after == before && effect == EffectView::SaveProject(next)
    } else {
        proceeded(before, after, next) && effect == EffectView::Nothing
    }
}

fn save_then(app: &mut App, next: AfterSave) -> (r: KeyEffect)
    ensures
        saved_then(*old(app), *final(app), r@, next),
{
    if app.project.editor_dirty && app.project.editor_path.is_some() {
        KeyEffect::SaveProject(next)
    } else {
        proceed(app, next);
        KeyEffect::Nothing
    }
}

/// What a pane shortcut does.
pub open spec fn shortcut_after(
    before: App,
    after: App,
    effect: EffectView,
    pane: ProjectPane,
) -> bool {
    if before.project.pane == ProjectPane::Editor && before.project.editor_insert_mode {
        after == before && effect == EffectView::Nothing
    } else if before.project.pane == ProjectPane::Editor && pane != ProjectPane::Editor {
        saved_then(before, after, effect, AfterSave::Focus(pane))
    } else {
        pane_focused(before, after, pane) && effect == EffectView::Nothing
    }
}

fn handle_project_pane_shortcut(app: &mut App, pane: ProjectPane) -> (r: KeyEffect)
    ensures
        shortcut_after(*old(app), *final(app), r@, pane),
{
    if app.project.pane == ProjectPane::Editor && app.project.editor_insert_mode {
        return KeyEffect::Nothing;
    }
    if app.project.pane == ProjectPane::Editor && pane != ProjectPane::Editor {
        return save_then(app, AfterSave::Focus(pane));
    }
    focus_pane(app, pane);
    KeyEffect::Nothing
}

fn shortcut_pane(key: KeyEvent) -> (r: Option<ProjectPane>)
    ensures
        r == pane_shortcut(key),
{
    if !key.modifiers.alt {
        return None;
    }
    match key.code {
        KeyCode::Char('1') => Some(ProjectPane::FileTree),
        KeyCode::Char('2') => Some(ProjectPane::Editor),
        KeyCode::Char('3') => Some(ProjectPane::Preview),
        KeyCode::Char('4') => Some(ProjectPane::Build),
        _ => None,
    }
}

/// An input for a name is open and empty.
pub open spec fn name_input_opened(before: App, after: App, mode: AppMode) -> bool {
    &&& after == App {
        mode,
        project: ProjectState {
            rename_input: after.project.rename_input,
            rename_cursor: 0,
            ..before.project
        },
        ..before
    }
    &&& after.project.rename_input@.len() == 0
}

/// An input for a name is open and holds the name that is to be changed.
pub open spec fn rename_opened(
    before: App,
    after: App,
    mode: AppMode,
    name: Seq<char>,
    entry: Option<String>,
) -> bool {
    &&& after == App {
        mode,
        project: ProjectState {
            rename_input: after.project.rename_input,
            rename_cursor: byte_len(name) as usize,
            entry_rename_path: entry,
            ..before.project
        },
        ..before
    }
    &&& after.project.rename_input@ == name
    &&& byte_len(name) <= usize::MAX
}

/// The selected project.
pub open spec fn selected_project(p: ProjectState) -> Option<Project> {
    if p.selected < p.items@.len() {
        Some(p.items@[p.selected as int])
    } else {
        None
    }
}

/// What a key of the list of projects does to the state.
pub open spec fn list_after(before: App, after: App, code: KeyCode) -> bool {
    let p = before.project;
    match code {
        KeyCode::Char('q') => after == dispatched(before, Command::Quit),
        KeyCode::Left => after == App { content_focused: false, ..before },
        KeyCode::Char('n') => name_input_opened(before, after, AppMode::ProjectCreate),
        KeyCode::Char('R') => match selected_project(p) {
            Some(project) => rename_opened(
                before,
                after,
                AppMode::ProjectRename,
                project.name@,
                p.entry_rename_path,
            ),
            None => after == before,
        },
        KeyCode::Up | KeyCode::Char('k') => after == with_project(
            before,
            ProjectState { selected: row_above(p.selected), ..p },
        ),
        KeyCode::Down | KeyCode::Char('j') => after == with_project(
            before,
            ProjectState { selected: row_below(p.selected, p.items@.len() as int), ..p },
        ),
        _ => after == before,
    }
}

/// What a key of the list of projects asks for.
pub open spec fn list_action(p: ProjectState, code: KeyCode) -> Option<ActionView> {
    match code {
        KeyCode::Char('r') => Some(ActionView::RefreshProjects),
        KeyCode::Char('x') => match selected_project(p) {
            Some(project) => Some(ActionView::ConfirmDeleteProject(project@)),
            None => None,
        },
        KeyCode::Enter | KeyCode::Right | KeyCode::Char('l') => match selected_project(p) {
            Some(project) => Some(ActionView::OpenProject(project@)),
            None => None,
        },
        _ => None,
    }
}

#[verifier::rlimit(40)]
fn handle_project_list_key(app: &mut App, key: KeyEvent) -> (r: Option<UiAction>)
    ensures
        list_after(*old(app), *final(app), key.code),
        act(r) == list_action(old(app).project, key.code),
{
    let k: usize = app.project.selected;
    match key.code {
        KeyCode::Char('q') => {
            app.dispatch(Command::Quit);
            None
        },
        KeyCode::Left => {
            app.content_focused = false;
            None
        },
        KeyCode::Char('n') => {
            app.project.rename_input = String::new();
            app.project.rename_cursor = 0;
            app.mode = AppMode::ProjectCreate;
            None
        },
        KeyCode::Char('r') => Some(UiAction::RefreshProjects),
        KeyCode::Char('R') => {
            if k < app.project.items.len() {
                let name = app.project.items[k].name.clone();
                app.project.rename_cursor = text_len(name.as_str());
                app.project.rename_input = name;
                app.mode = AppMode::ProjectRename;
            }
            None
        },
        KeyCode::Char('x') => {
            if k < app.project.items.len() {
                Some(UiAction::ConfirmDeleteProject(app.project.items[k].copy()))
            } else {
                None
            }
        },
        KeyCode::Up | KeyCode::Char('k') => {
            app.project.selected = select_above(k);
            None
        },
        KeyCode::Down | KeyCode::Char('j') => {
            app.project.selected = select_below(k, app.project.items.len());
            None
        },
        KeyCode::Enter | KeyCode::Right | KeyCode::Char('l') => {
            if k < app.project.items.len() {
                Some(UiAction::OpenProject(app.project.items[k].copy()))
            } else {
                None
            }
        },
        _ => None,
    }
}

/// Whether the file tree shows a folder below the one of the project.
pub open spec fn below_root(p: ProjectState) -> bool {
    p.active matches Some(active) && (p.tree_dir matches Some(dir) && path_key(dir@) != path_key(
        active.path@,
    ))
}

fn is_below_root(p: &ProjectState) -> (r: bool)
    ensures
        r == below_root(*p),
{
    match &p.active {
        Some(active) => match &p.tree_dir {
            Some(dir) => !same_path(dir.as_str(), active.path.as_str()),
            None => false,
        },
        None => false,
    }
}

/// Position of the first of `files` from `i` on that is `path`.
pub open spec fn file_at(files: Seq<String>, path: Seq<char>, i: int) -> int
    decreases files.len() - i,
{
    if i >= files.len() {
        0
    } else if path_key(files[i]@) == path_key(path) {
        i
    } else {
        file_at(files, path, i + 1)
    }
}

/// Shows the folder above in the file tree, with the folder that was shown
/// before selected. Where the folder above is outside of the project, the
/// project is left.
pub fn tree_parent_listed(app: &mut App, parent: Option<(String, Vec<String>)>) -> (r: KeyEffect)
    ensures
        match parent {
            Some((dir, files)) => r@ == EffectView::Nothing && *final(app) == with_project(
                *old(app),
                ProjectState {
                    tree_dir: Some(dir),
                    files,
                    file_selected: (match old(app).project.tree_dir {
                        Some(previous) => file_at(files@, previous@, 0),
                        None => 0,
                    }) as usize,
                    ..old(app).project
                },
            ),
            None => saved_then(*old(app), *final(app), r@, AfterSave::LeaveProject),
        },
{
    match parent {
        Some((dir, files)) => {
            let mut selected: usize = 0;
            match &app.project.tree_dir {
                Some(previous) => {
                    let mut i: usize = 0;
                    while i < files.len() && !same_path(files[i].as_str(), previous.as_str())
                        invariant
                            i <= files@.len(),
                            file_at(files@, previous@, 0) == file_at(
                                files@,
                                previous@,
                                i as int,
                            ),
                        decreases files@.len() - i,
                    {
                        i = i + 1;
                    }
                    if i < files.len() {
                        selected = i;
                    }
                },
                None => {},
            }
            app.project.tree_dir = Some(dir);
            app.project.files = files;
            app.project.file_selected = selected;
            KeyEffect::Nothing
        },
        None => save_then(app, AfterSave::LeaveProject),
    }
}

/// Opens an entry of the file tree: a folder with the entries it holds, or a
/// file.
pub fn tree_entry_opened(app: &mut App, path: String, entries: Option<Vec<String>>) -> (r: Option<
    UiAction,
>)
    ensures
        match entries {
            Some(files) => r is None && *final(app) == with_project(
                *old(app),
                ProjectState { tree_dir: Some(path), files, file_selected: 0, ..old(app).project },
            ),
            None => act(r) == Some(ActionView::OpenProjectFile(path@)) && *final(app) == *old(app),
        },
{
    match entries {
        Some(files) => {
            app.project.tree_dir = Some(path);
            app.project.files = files;
            app.project.file_selected = 0;
            None
        },
        None => Some(UiAction::OpenProjectFile(path)),
    }
}

/// Whether a key pastes a text as it is.
pub open spec fn paste_shortcut(key: KeyEvent) -> bool {
    key.modifiers.control && key.modifiers.shift && (key.code == KeyCode::Char('v') || key.code
        == KeyCode::Char('V'))
}

/// Whether a TeX source or a bibliography is open in the focused editor.
pub open spec fn bibtex_editor(app: App) -> bool {
    app.page == Page::Projects && app.content_focused && app.project.pane == ProjectPane::Editor
        && (app.project.editor_path matches Some(path) && (has_extension(path@, "bib"@)
        || has_extension(path@, "tex"@)))
}

/// Whether a TeX source or a bibliography is open in the focused editor.
pub fn is_project_bibtex_editor(app: &App) -> (r: bool)
    ensures
        r == bibtex_editor(*app),
{
    app.page == Page::Projects && app.content_focused && app.project.pane == ProjectPane::Editor
        && (match &app.project.editor_path {
        Some(path) => extension_is(path.as_str(), "bib") || extension_is(path.as_str(), "tex"),
        None => false,
    })
}

/// A text pasted at the caret, letter by letter as it is.
pub open spec fn pasted(c: Caret, text: Seq<char>) -> Caret {
    Caret { text: c.text.take(c.at) + text + c.text.skip(c.at), at: c.at + text.len() }
}

/// The editor holds a pasted text, which is still to be saved.
pub open spec fn text_pasted(before: ProjectState, after: ProjectState, text: Seq<char>) -> bool {
    let c = pasted(editor_caret(before), text);
    &&& after == ProjectState {
        editor_text: after.editor_text,
        editor_cursor: after.editor_cursor,
        editor_dirty: true,
        completions: after.completions,
        ..before
    }
    &&& after.completions@.len() == 0
    &&& after.editor_text@ == c.text
    &&& after.editor_cursor == offset(c.text, c.at)
}

/// Inserts a text at the caret of the editor without changing a letter of it.
pub fn insert_project_bibtex_text(p: &mut ProjectState, text: &str)
    requires
        editor_ok(*old(p)),
    ensures
        text_pasted(*old(p), *final(p), text@),
        editor_ok(*final(p)),
{
    let chars = to_chars(p.editor_text.as_str());
    let at: usize = caret_at(&chars, p.editor_cursor);
    let added = to_chars(text);
    let mut all: Vec<char> = Vec::new();
    let ghost c = editor_caret(*p);
    let mut i: usize = 0;
    while i < at
        invariant
            i <= at <= chars@.len(),
            all@ == chars@.take(i as int),
        decreases at - i,
    {
        all.push(chars[i]);
        i = i + 1;
        assert(chars@.take(i as int) =~= chars@.take(i - 1).push(chars@[i - 1]));
    }
    let ghost head = all@;
    let mut j: usize = 0;
    assert(head + added@.take(0) =~= head);
    while j < added.len()
        invariant
            j <= added@.len(),
            all@ == head + added@.take(j as int),
        decreases added@.len() - j,
    {
        all.push(added[j]);
        j = j + 1;
        assert(head + added@.take(j as int) =~= (head + added@.take(j - 1)).push(added@[j - 1]));
    }
    assert(added@.take(added@.len() as int) =~= added@);
    let next: usize = all.len();
    let ghost both = all@;
    let mut k: usize = at;
    assert(both + chars@.subrange(at as int, at as int) =~= both);
    while k < chars.len()
        invariant
            at <= k <= chars@.len(),
            all@ == both + chars@.subrange(at as int, k as int),
        decreases chars@.len() - k,
    {
        all.push(chars[k]);
        k = k + 1;
        assert(both + chars@.subrange(at as int, k as int) =~= (both + chars@.subrange(
            at as int,
            k - 1,
        )).push(chars@[k - 1]));
    }
    assert(chars@.subrange(at as int, chars@.len() as int) =~= chars@.skip(at as int));
    assert(all@ == pasted(c, text@).text);
    store(&mut p.editor_text, &mut p.editor_cursor, &all, next);
    p.editor_dirty = true;
    p.completions = Vec::new();
}

/// What becomes of a text that was pasted or read from the clipboard.
pub open spec fn paste_after(before: App, after: App, text: Seq<char>, effect: EffectView) -> bool {
    if !bibtex_editor(before) || text.len() == 0 {
        after == before && effect == EffectView::Nothing
    } else {
        &&& after == with_project(before, after.project)
        &&& text_pasted(before.project, forgetful(before.project, after.project), text)
        &&& after.project.editor_memory@ == noted(before.project, after.project.editor_text@)
        &&& effect == EffectView::SaveProject(AfterSave::Stay)
    }
}

/// Takes a pasted text into an open TeX source or bibliography, which is then
/// saved.
pub fn handle_project_bibtex_paste(app: &mut App, text: &str) -> (r: KeyEffect)
    requires
        editor_ok(old(app).project),
    ensures
        paste_after(*old(app), *final(app), text@, r@),
{
    if !is_project_bibtex_editor(app) || text.is_empty() {
        return KeyEffect::Nothing;
    }
    let ghost before = app.project;
    let earlier = snapshot_of(&app.project);
    insert_project_bibtex_text(&mut app.project, text);
    let ghost mid = app.project;
    note_change(&mut app.project, earlier);
    assert(forgetful(before, app.project) == mid);
    KeyEffect::SaveProject(AfterSave::Stay)
}

/// Takes the text of the clipboard into an open TeX source or bibliography.
pub fn clipboard_read(app: &mut App, text: Option<String>) -> (r: KeyEffect)
    requires
        editor_ok(old(app).project),
        bibtex_editor(*old(app)),
    ensures
        match text {
            Some(s) => if s@.len() > 0 {
                paste_after(*old(app), *final(app), s@, r@)
            } else {
                r@ == EffectView::Nothing && crate::workspaces::only_toast(
                    *old(app),
                    *final(app),
                    "Clipboard does not contain text to paste."@,
                )
            },
            None => r@ == EffectView::Nothing && crate::workspaces::only_toast(
                *old(app),
                *final(app),
                "Clipboard does not contain text to paste."@,
            ),
        },
{
    match text {
        Some(s) => {
            if !s.as_str().is_empty() {
                return handle_project_bibtex_paste(app, s.as_str());
            }
        },
        None => {},
    }
    app.toast = Some("Clipboard does not contain text to paste.".to_owned());
    KeyEffect::Nothing
}

/// Start of the characters before `k` that are not `,`, `{` or `}`.
pub open spec fn key_bound(s: Seq<char>, k: int) -> int
    decreases k,
{
    if 0 < k && s[k - 1] != ',' && s[k - 1] != '{' && s[k - 1] != '}' {
        key_bound(s, k - 1)
    } else {
        k
    }
}

/// First character from `j` on, and before `k`, that is no white space.
pub open spec fn skip_spaces(s: Seq<char>, j: int, k: int) -> int
    decreases k - j,
{
    if j < k && whitespace(s[j]) {
        skip_spaces(s, j + 1, k)
    } else {
        j
    }
}

/// Position of the last brace before `k`, or -1.
pub open spec fn last_brace(s: Seq<char>, k: int) -> int
    decreases k,
{
    if k <= 0 {
        -1
    } else if s[k - 1] == '{' || s[k - 1] == '}' {
        k - 1
    } else {
        last_brace(s, k - 1)
    }
}

/// Whether the four letters of `cite` stand right before position `k`, behind
/// letters that a backslash starts, or with a star or letters behind them.
pub open spec fn cites_before(s: Seq<char>, k: int) -> bool
    decreases k,
{
    if k < 5 {
        false
    } else if s[k - 4] == 'c' && s[k - 3] == 'i' && s[k - 2] == 't' && s[k - 1] == 'e' {
        true
    } else if s[k - 1] == '*' || crate::arxiv::ascii_letter(s[k - 1]) {
        cites_before(s, k - 1)
    } else {
        false
    }
}

/// Start of the citation key that is being typed at the caret, where the caret
/// stands in the braces of a citation command.
pub open spec fn citation_start(s: Seq<char>, k: int) -> Option<int> {
    let brace = last_brace(s, k);
    if brace >= 0 && s[brace] == '{' && cites_before(s, brace) {
        Some(skip_spaces(s, key_bound(s, k), k))
    } else {
        None
    }
}

proof fn lemma_citation_start(s: Seq<char>, k: int)
    requires
        0 <= k <= s.len(),
    ensures
        citation_start(s, k) matches Some(j) ==> 0 <= j <= k,
{
    lemma_key_bound(s, k);
    lemma_skip_spaces(s, key_bound(s, k), k);
}

proof fn lemma_key_bound(s: Seq<char>, k: int)
    requires
        0 <= k,
    ensures
        0 <= key_bound(s, k) <= k,
    decreases k,
{
    if 0 < k && s[k - 1] != ',' && s[k - 1] != '{' && s[k - 1] != '}' {
        lemma_key_bound(s, k - 1);
    }
}

proof fn lemma_skip_spaces(s: Seq<char>, j: int, k: int)
    requires
        j <= k,
    ensures
        j <= skip_spaces(s, j, k) <= k,
    decreases k - j,
{
    if j < k && whitespace(s[j]) {
        lemma_skip_spaces(s, j + 1, k);
    }
}

/// Start of the citation key that is being typed at the caret.
pub fn citation_query_start(s: &Vec<char>, at: usize) -> (r: Option<usize>)
    requires
        at <= s@.len(),
    ensures
        r is Some <==> citation_start(s@, at as int) is Some,
        r matches Some(j) ==> citation_start(s@, at as int) == Some(j as int) && j <= at,
{
    let mut b: usize = at;
    while b > 0 && s[b - 1] != '{' && s[b - 1] != '}'
        invariant
            b <= at <= s@.len(),
            last_brace(s@, at as int) == last_brace(s@, b as int),
        decreases b,
    {
        b = b - 1;
    }
    if b == 0 || s[b - 1] != '{' {
        return None;
    }
    let mut c: usize = b - 1;
    while c >= 5 && !(s[c - 4] == 'c' && s[c - 3] == 'i' && s[c - 2] == 't' && s[c - 1] == 'e') && (
    s[c - 1] == '*' || ('a' <= s[c - 1] && s[c - 1] <= 'z') || ('A' <= s[c - 1] && s[c - 1] <= 'Z'))
        invariant
            c <= b - 1,
            b <= at <= s@.len(),
            cites_before(s@, b - 1) == cites_before(s@, c as int),
        decreases c,
    {
        c = c - 1;
    }
    if c < 5 || !(s[c - 4] == 'c' && s[c - 3] == 'i' && s[c - 2] == 't' && s[c - 1] == 'e') {
        return None;
    }
    let mut j: usize = at;
    while j > 0 && s[j - 1] != ',' && s[j - 1] != '{' && s[j - 1] != '}'
        invariant
            j <= at <= s@.len(),
            key_bound(s@, at as int) == key_bound(s@, j as int),
        decreases j,
    {
        j = j - 1;
    }
    while j < at && is_whitespace(s[j])
        invariant
            j <= at <= s@.len(),
            skip_spaces(s@, key_bound(s@, at as int), at as int) == skip_spaces(
                s@,
                j as int,
                at as int,
            ),
        decreases at - j,
    {
        j = j + 1;
    }
    Some(j)
}

/// The text with the key at the caret replaced by a suggestion.
pub open spec fn completed(c: Caret, start: int, suggestion: Seq<char>) -> Caret {
    pasted(c.cut(start, c.at), suggestion)
}

/// Whether a suggestion can be taken.
pub open spec fn can_complete(p: ProjectState) -> bool {
    p.completion_selected < p.completions@.len() && citation_start(
        p.editor_text@,
        editor_caret(p).at,
    ) is Some
}

/// The selected suggestion has been taken.
pub open spec fn completion_taken(before: ProjectState, after: ProjectState) -> bool {
    let c = editor_caret(before);
    let suggestion = before.completions@[before.completion_selected as int].insert_text@;
    let now = completed(c, citation_start(c.text, c.at)->0, suggestion);
    &&& after == ProjectState {
        editor_text: after.editor_text,
        editor_cursor: after.editor_cursor,
        editor_dirty: true,
        completions: after.completions,
        ..before
    }
    &&& after.completions@.len() == 0
    &&& after.editor_text@ == now.text
    &&& after.editor_cursor == offset(now.text, now.at)
}

/// Replaces the citation key at the caret, and nothing else, by the selected
/// suggestion.
pub fn accept_project_completion(p: &mut ProjectState) -> (taken: bool)
    requires
        editor_ok(*old(p)),
    ensures
        taken == can_complete(*old(p)),
        taken ==> completion_taken(*old(p), *final(p)),
        !taken ==> *final(p) == *old(p),
        editor_ok(*final(p)),
{
    if p.completion_selected >= p.completions.len() {
        return false;
    }
    let mut chars = to_chars(p.editor_text.as_str());
    let at: usize = caret_at(&chars, p.editor_cursor);
    let ghost c = editor_caret(*p);
    match citation_query_start(&chars, at) {
        None => false,
        Some(start) => {
            let suggestion = p.completions[p.completion_selected].insert_text.clone();
            cut_range(&mut chars, start, at);
            store(&mut p.editor_text, &mut p.editor_cursor, &chars, start);
            proof {
                crate::text::lemma_index_at(chars@, start as int);
                assert(editor_caret(*p) == c.cut(start as int, at as int));
            }
            insert_project_bibtex_text(p, suggestion.as_str());
            true
        },
    }
}

/// Shows suggestions for the key at the caret; the selected one stays in reach.
pub fn update_project_completions(p: &mut ProjectState, items: Vec<CompletionItem>)
    ensures
        *final(p) == (ProjectState {
            completions: items,
            completion_selected: min(
                old(p).completion_selected as int,
                max(items@.len() - 1, 0),
            ) as usize,
            ..*old(p)
        }),
{
    let last: usize = if items.len() == 0 {
        0
    } else {
        items.len() - 1
    };
    if p.completion_selected > last {
        p.completion_selected = last;
    }
    p.completions = items;
}

/// The caret of the editor one screen up or down.
pub open spec fn editor_paged(p: ProjectState, up: bool) -> Caret {
    let c = editor_caret(p);
    let w = p.editor_wrap_width as int;
    let height = min(max(p.editor_viewport_height as int, 1), isize::MAX as int);
    c.moved(
        rows_moved(
            c.text,
            c.at,
            if up {
                -height
            } else {
                height
            },
            visual_position(c.text, c.at, w).1,
            w,
        ),
    )
}

/// Moves the caret of the editor one screen up or down.
pub fn move_project_editor_page(p: &mut ProjectState, up: bool)
    requires
        editor_ok(*old(p)),
    ensures
        *final(p) == (ProjectState { editor_cursor: final(p).editor_cursor, ..*old(p) }),
        final(p).editor_cursor == offset(
            old(p).editor_text@,
            editor_paged(*old(p), up).at,
        ),
        editor_ok(*final(p)),
{
    let height: isize = if p.editor_viewport_height == 0 {
        1
    } else if p.editor_viewport_height > isize::MAX as usize {
        isize::MAX
    } else {
        p.editor_viewport_height as isize
    };
    let delta: isize = if up {
        -height
    } else {
        height
    };
    proof {
        crate::text::lemma_boundary(p.editor_text@, p.editor_cursor as int);
    }
    let (cursor, goal) = move_rows(
        p.editor_text.as_str(),
        p.editor_cursor,
        delta,
        None,
        p.editor_wrap_width,
    );
    p.editor_cursor = cursor;
}

/// What a key does in the insert mode of the editor.
pub open spec fn insert_mode_after(
    before: ProjectState,
    after: ProjectState,
    key: KeyEvent,
) -> bool {
    let open = before.completions@.len() > 0;
    if open && key.code == KeyCode::Up {
        after == ProjectState {
            completion_selected: row_above(before.completion_selected),
            ..before
        }
    } else if open && key.code == KeyCode::Down {
        after == ProjectState {
            completion_selected: row_below(
                before.completion_selected,
                before.completions@.len() as int,
            ),
            ..before
        }
    } else if open && (key.code == KeyCode::Tab || key.code == KeyCode::Enter) && can_complete(
        before,
    ) {
        completion_taken(before, after)
    } else if key.code == KeyCode::PageUp || key.code == KeyCode::PageDown {
        editor_becomes(before, after, editor_paged(before, key.code == KeyCode::PageUp))
    } else {
        let (c, result) = inserted(editor_caret(before), key);
        &&& after == ProjectState {
            editor_text: after.editor_text,
            editor_cursor: after.editor_cursor,
            editor_insert_mode: if result == EditorInsertResult::ExitInsert {
                false
            } else {
                before.editor_insert_mode
            },
            editor_dirty: before.editor_dirty || result == EditorInsertResult::Changed,
            ..before
        }
        &&& after.editor_text@ == c.text
        &&& after.editor_cursor == offset(c.text, c.at)
    }
}

pub(crate) fn handle_project_editor_insert_key(p: &mut ProjectState, key: KeyEvent)
    requires
        editor_ok(*old(p)),
        key.code != KeyCode::Esc,
    ensures
        insert_mode_after(*old(p), *final(p), key),
        editor_ok(*final(p)),
{
    if p.completions.len() > 0 {
        match key.code {
            KeyCode::Up => {
                p.completion_selected = select_above(p.completion_selected);
                return ;
            },
            KeyCode::Down => {
                p.completion_selected = select_below(p.completion_selected, p.completions.len());
                return ;
            },
            KeyCode::Tab | KeyCode::Enter => {
                if accept_project_completion(p) {
                    return ;
                }
            },
            _ => {},
        }
    }
    if matches!(key.code, KeyCode::PageUp | KeyCode::PageDown) {
        move_project_editor_page(p, matches!(key.code, KeyCode::PageUp));
        return ;
    }
    match apply_editor_insert_key(&mut p.editor_text, &mut p.editor_cursor, key) {
        EditorInsertResult::ExitInsert => p.editor_insert_mode = false,
        EditorInsertResult::Changed => p.editor_dirty = true,
        EditorInsertResult::Ignored | EditorInsertResult::Moved => {},
    }
}

/// The arrow key that a key of normal mode stands for.
pub open spec fn motion(code: KeyCode) -> Option<KeyCode> {
    match code {
        KeyCode::Left | KeyCode::Char('h') => Some(KeyCode::Left),
        KeyCode::Right | KeyCode::Char('l') => Some(KeyCode::Right),
        KeyCode::Up | KeyCode::Char('k') => Some(KeyCode::Up),
        KeyCode::Down | KeyCode::Char('j') => Some(KeyCode::Down),
        _ => None,
    }
}

/// What a key does in the normal mode of the editor.
pub open spec fn normal_mode_after(
    before: ProjectState,
    after: ProjectState,
    key: KeyEvent,
) -> bool {
    let c = editor_caret(before);
    match motion(key.code) {
        Some(code) => editor_becomes(before, after, edited(c, KeyEvent { code, ..key })),
        None => match key.code {
            KeyCode::Char('i') => after == ProjectState { editor_insert_mode: true, ..before },
            KeyCode::Char('w') => editor_becomes(
                before,
                after,
                c.moved(word_right(classes_of(c.text), c.at)),
            ),
            KeyCode::Char('b') => editor_becomes(
                before,
                after,
                c.moved(word_left(classes_of(c.text), c.at)),
            ),
            KeyCode::Char('0') | KeyCode::Home => editor_becomes(
                before,
                after,
                c.moved(line_start(c.text, c.at)),
            ),
            KeyCode::Char('$') | KeyCode::End => editor_becomes(
                before,
                after,
                c.moved(line_end(c.text, c.at)),
            ),
            KeyCode::Backspace => editor_becomes(before, after, c.moved(max(c.at - 1, 0))),
            KeyCode::Delete | KeyCode::Char('x') => if c.at < c.text.len() {
                &&& after == ProjectState {
                    editor_text: after.editor_text,
                    editor_cursor: after.editor_cursor,
                    editor_dirty: true,
                    ..before
                }
                &&& after.editor_text@ == c.deleted().text
                &&& after.editor_cursor == offset(c.deleted().text, c.at)
            } else {
                after == before
            },
            KeyCode::PageUp | KeyCode::PageDown => editor_becomes(
                before,
                after,
                editor_paged(before, key.code == KeyCode::PageUp),
            ),
            _ => after == before,
        },
    }
}

pub(crate) fn handle_project_editor_normal_key(p: &mut ProjectState, key: KeyEvent)
    requires
        editor_ok(*old(p)),
    ensures
        normal_mode_after(*old(p), *final(p), key),
        editor_ok(*final(p)),
{
    let movement: Option<KeyCode> = match key.code {
        KeyCode::Left | KeyCode::Char('h') => Some(KeyCode::Left),
        KeyCode::Right | KeyCode::Char('l') => Some(KeyCode::Right),
        KeyCode::Up | KeyCode::Char('k') => Some(KeyCode::Up),
        KeyCode::Down | KeyCode::Char('j') => Some(KeyCode::Down),
        _ => None,
    };
    proof {
        crate::text::lemma_boundary(p.editor_text@, p.editor_cursor as int);
    }
    match movement {
        Some(code) => {
            let motion_key = KeyEvent { code, modifiers: key.modifiers, kind: key.kind };
            let _ = edit_text(&mut p.editor_text, &mut p.editor_cursor, motion_key);
        },
        None => match key.code {
            KeyCode::Char('i') => p.editor_insert_mode = true,
            KeyCode::Char('w') => {
                p.editor_cursor = next_word_boundary(p.editor_text.as_str(), p.editor_cursor);
            },
            KeyCode::Char('b') => {
                p.editor_cursor = prev_word_boundary(p.editor_text.as_str(), p.editor_cursor);
            },
            KeyCode::Char('0') | KeyCode::Home => {
                p.editor_cursor = config_editor_line_start(
                    p.editor_text.as_str(),
                    p.editor_cursor,
                );
            },
            KeyCode::Char('$') | KeyCode::End => {
                p.editor_cursor = config_editor_line_end(p.editor_text.as_str(), p.editor_cursor);
            },
            KeyCode::Backspace => {
                let back = KeyEvent::new(KeyCode::Left, KeyModifiers::none());
                let _ = edit_text(&mut p.editor_text, &mut p.editor_cursor, back);
            },
            KeyCode::Delete | KeyCode::Char('x') => {
                if p.editor_cursor < text_len(p.editor_text.as_str()) {
                    proof {
                        crate::text::lemma_offset_ends(p.editor_text@);
                    }
                    let delete = KeyEvent::new(KeyCode::Delete, KeyModifiers::none());
                    let _ = edit_text(&mut p.editor_text, &mut p.editor_cursor, delete);
                    p.editor_dirty = true;
                } else {
                    proof {
                        lemma_at_end(p.editor_text@, p.editor_cursor as int);
                    }
                }
            },
            KeyCode::PageUp | KeyCode::PageDown => {
                move_project_editor_page(p, matches!(key.code, KeyCode::PageUp));
            },
            _ => {},
        },
    }
}

proof fn lemma_at_end(s: Seq<char>, b: int)
    requires
        is_boundary(s, b),
        b >= byte_len(s),
    ensures
        index_at(s, b) == s.len(),
{
    crate::text::lemma_boundary(s, b);
    crate::text::lemma_offset_ends(s);
    crate::text::lemma_offset_mono(s, index_at(s, b), s.len() as int);
}

/// The entry that is selected in the file tree.
pub open spec fn selected_file(p: ProjectState) -> Option<String> {
    if p.file_selected < p.files@.len() {
        Some(p.files@[p.file_selected as int])
    } else {
        None
    }
}

/// What a key of the file tree does to the state.
pub open spec fn tree_after(before: App, after: App, code: KeyCode) -> bool {
    let p = before.project;
    match code {
        KeyCode::Char('n') => name_input_opened(before, after, AppMode::ProjectFileCreate),
        KeyCode::Char('R') => match selected_file(p) {
            Some(path) => rename_opened(
                before,
                after,
                AppMode::ProjectEntryRename,
                name_shown(path@),
                Some(path),
            ),
            None => after == before,
        },
        KeyCode::Up | KeyCode::Char('k') => after == with_project(
            before,
            ProjectState { file_selected: row_above(p.file_selected), ..p },
        ),
        KeyCode::Down | KeyCode::Char('j') => after == with_project(
            before,
            ProjectState { file_selected: row_below(p.file_selected, p.files@.len() as int), ..p },
        ),
        _ => after == before,
    }
}

/// What a key of the file tree asks for.
pub open spec fn tree_effect(p: ProjectState, code: KeyCode) -> EffectView {
    match selected_file(p) {
        Some(path) => match code {
            KeyCode::Enter | KeyCode::Right => EffectView::OpenTreeEntry(path@),
            KeyCode::Char('x') => EffectView::Act(ActionView::ConfirmDeleteProjectEntry(path@)),
            _ => EffectView::Nothing,
        },
        None => EffectView::Nothing,
    }
}

fn handle_project_tree_key(app: &mut App, key: KeyEvent) -> (r: KeyEffect)
    ensures
        tree_after(*old(app), *final(app), key.code),
        r@ == tree_effect(old(app).project, key.code),
{
    let k: usize = app.project.file_selected;
    let some: bool = k < app.project.files.len();
    match key.code {
        KeyCode::Char('n') => {
            app.project.rename_input = String::new();
            app.project.rename_cursor = 0;
            app.mode = AppMode::ProjectFileCreate;
            KeyEffect::Nothing
        },
        KeyCode::Char('R') => {
            if some {
                let path = app.project.files[k].clone();
                let name = shown_name(path.as_str());
                app.project.rename_cursor = text_len(name.as_str());
                app.project.rename_input = name;
                app.project.entry_rename_path = Some(path);
                app.mode = AppMode::ProjectEntryRename;
            }
            KeyEffect::Nothing
        },
        KeyCode::Up | KeyCode::Char('k') => {
            app.project.file_selected = select_above(k);
            KeyEffect::Nothing
        },
        KeyCode::Down | KeyCode::Char('j') => {
            app.project.file_selected = select_below(k, app.project.files.len());
            KeyEffect::Nothing
        },
        KeyCode::Enter | KeyCode::Right => {
            if some {
                KeyEffect::OpenTreeEntry(app.project.files[k].clone())
            } else {
                KeyEffect::Nothing
            }
        },
        KeyCode::Char('x') => {
            if some {
                KeyEffect::Act(UiAction::ConfirmDeleteProjectEntry(app.project.files[k].clone()))
            } else {
                KeyEffect::Nothing
            }
        },
        _ => KeyEffect::Nothing,
    }
}

/// The furthest that the build messages scroll.
pub open spec fn build_max_scroll(p: ProjectState) -> int {
    max(max(p.build_errors@.len() as int, 1) - max(p.build_viewport_height as int, 1), 0)
}

/// The first build message that is shown after a key.
pub open spec fn build_scrolled(p: ProjectState, code: KeyCode) -> int {
    let height = max(p.build_viewport_height as int, 1);
    match code {
        KeyCode::Up | KeyCode::Char('k') => max(p.build_scroll - 1, 0),
        KeyCode::Down | KeyCode::Char('j') => min(p.build_scroll + 1, build_max_scroll(p)),
        KeyCode::PageUp => max(p.build_scroll - height, 0),
        KeyCode::PageDown => min(p.build_scroll + height, build_max_scroll(p)),
        KeyCode::Home => 0,
        KeyCode::End => build_max_scroll(p),
        _ => p.build_scroll as int,
    }
}

/// Scrolls the build messages.
pub fn handle_project_build_key(p: &mut ProjectState, key: KeyEvent)
    ensures
        *final(p) == (ProjectState {
            build_scroll: build_scrolled(*old(p), key.code) as usize,
            ..*old(p)
        }),
{
    let lines: usize = if p.build_errors.len() == 0 {
        1
    } else {
        p.build_errors.len()
    };
    let height: usize = if p.build_viewport_height == 0 {
        1
    } else {
        p.build_viewport_height
    };
    let last: usize = lines.saturating_sub(height);
    let now: usize = p.build_scroll;
    match key.code {
        KeyCode::Up | KeyCode::Char('k') => p.build_scroll = now.saturating_sub(1),
        KeyCode::Down | KeyCode::Char('j') => {
            p.build_scroll = if now < last {
                now + 1
            } else {
                last
            };
        },
        KeyCode::PageUp => p.build_scroll = now.saturating_sub(height),
        KeyCode::PageDown => {
            let sum: usize = now.saturating_add(height);
            p.build_scroll = if sum < last {
                sum
            } else {
                last
            };
        },
        KeyCode::Home => p.build_scroll = 0,
        KeyCode::End => p.build_scroll = last,
        _ => {},
    }
}

/// A page within a document.
pub open spec fn clamped_page(pdf: PdfState, page: int) -> int {
    min(max(page, 1), max(pdf.total_pages as int, 1))
}

/// The page that a key of the preview shows.
pub open spec fn preview_page(pdf: PdfState, code: KeyCode) -> Option<int> {
    match code {
        KeyCode::Up => Some(clamped_page(pdf, pdf.page - 1)),
        KeyCode::Down => Some(clamped_page(pdf, pdf.page + 1)),
        KeyCode::Home => Some(1),
        KeyCode::End => Some(max(pdf.total_pages as int, 1)),
        _ => None,
    }
}

/// Shows a page of the open document from its top, and returns its number.
pub fn show_page(pdf: &mut PdfState, page: usize) -> (r: usize)
    ensures
        *final(pdf) == (PdfState {
            page: clamped_page(*old(pdf), page as int) as usize,
            scroll_y: 0,
            ..*old(pdf)
        }),
        r == clamped_page(*old(pdf), page as int),
{
    let last: usize = if pdf.total_pages == 0 {
        1
    } else {
        pdf.total_pages
    };
    let shown: usize = if page < 1 {
        1
    } else if page > last {
        last
    } else {
        page
    };
    pdf.page = shown;
    pdf.scroll_y = 0;
    shown
}

/// Keys of the preview: each shows a whole page.
pub fn handle_project_preview_key(pdf: &mut PdfState, key: KeyEvent) -> (r: KeyEffect)
    ensures
        match preview_page(*old(pdf), key.code) {
            Some(page) => *final(pdf) == (PdfState {
                page: page as usize,
                scroll_y: 0,
                ..*old(pdf)
            }) && r@ == EffectView::JumpToPage(page),
            None => *final(pdf) == *old(pdf) && r@ == EffectView::Nothing,
        },
{
    match key.code {
        KeyCode::Up => {
            let page: usize = pdf.page.saturating_sub(1);
            KeyEffect::JumpToPage(show_page(pdf, page))
        },
        KeyCode::Down => {
            let page: usize = pdf.page.saturating_add(1);
            KeyEffect::JumpToPage(show_page(pdf, page))
        },
        KeyCode::Home => KeyEffect::JumpToPage(show_page(pdf, 1)),
        KeyCode::End => {
            let page: usize = pdf.total_pages;
            KeyEffect::JumpToPage(show_page(pdf, page))
        },
        _ => KeyEffect::Nothing,
    }
}

/// What a key of the projects workspace does to the state, and what it asks for.
pub open spec fn projects_after(
    before: App,
    after: App,
    effect: EffectView,
    key: KeyEvent,
) -> bool {
    let p = before.project;
    if pane_shortcut(key) is Some {
        shortcut_after(before, after, effect, pane_shortcut(key)->0)
    } else if p.active is None || p.pane == ProjectPane::ProjectList {
        list_after(before, after, key.code) && effect == acting(list_action(p, key.code))
    } else if key.code == KeyCode::Esc {
        match p.pane {
            ProjectPane::FileTree => saved_then(before, after, effect, AfterSave::LeaveProject),
            ProjectPane::Editor => saved_then(before, after, effect, AfterSave::ShowFileTree),
            _ => proceeded(before, after, AfterSave::ShowFileTree) && effect
                == EffectView::Nothing,
        }
    } else if p.pane == ProjectPane::FileTree && key.code == KeyCode::Left {
        if below_root(p) {
            after == before && effect == EffectView::ListTreeParent
        } else {
            saved_then(before, after, effect, AfterSave::LeaveProject)
        }
    } else if key.modifiers.control && key.code == KeyCode::Char('s') {
        after == before && effect == (if p.editor_path is Some {
            EffectView::SaveProject(AfterSave::Stay)
        } else {
            EffectView::Nothing
        })
    } else if paste_shortcut(key) && bibtex_editor(before) {
        after == before && effect == EffectView::PasteClipboard
    } else if p.pane == ProjectPane::Editor && p.editor_insert_mode {
        after == with_project(before, after.project) && insert_key_after(p, after.project, key)
            && effect == EffectView::Nothing
    } else if key.code == KeyCode::Char('q') {
        after == dispatched(before, Command::Quit) && effect == EffectView::Nothing
    } else {
        match p.pane {
            ProjectPane::Editor => after == with_project(before, after.project)
                && normal_key_after(p, after.project, effect, key),
            ProjectPane::FileTree => tree_after(before, after, key.code) && effect == tree_effect(
                p,
                key.code,
            ),
            ProjectPane::Build => after == with_project(
                before,
                ProjectState { build_scroll: build_scrolled(p, key.code) as usize, ..p },
            ) && effect == EffectView::Nothing,
            ProjectPane::Preview => match preview_page(before.pdf, key.code) {
                Some(page) => after == (App {
                    pdf: PdfState { page: page as usize, scroll_y: 0, ..before.pdf },
                    ..before
                }) && effect == EffectView::JumpToPage(page),
                None => after == before && effect == EffectView::Nothing,
            },
            ProjectPane::ProjectList => true,
        }
    }
}

/// Keys keep the caret of the editor between two characters, and that of an
/// input for a name.
pub proof fn lemma_project_carets(before: App, after: App, effect: EffectView, key: KeyEvent)
    requires
        editor_ok(before.project),
        is_boundary(before.project.rename_input@, before.project.rename_cursor as int),
        projects_after(before, after, effect, key),
    ensures
        editor_ok(after.project),
        is_boundary(after.project.rename_input@, after.project.rename_cursor as int),
{
    let p = before.project;
    let q = after.project;
    let c = editor_caret(p);
    crate::text::lemma_boundary(p.editor_text@, p.editor_cursor as int);
    crate::text::lemma_boundary_ends(q.rename_input@);
    crate::edit::lemma_edited_valid(c, key);
    if motion(key.code) is Some {
        crate::edit::lemma_edited_valid(c, KeyEvent { code: motion(key.code)->0, ..key });
    }
    crate::editor::lemma_word_motion(classes_of(c.text), c.at);
    crate::editor::lemma_line_start(c.text, c.at);
    crate::editor::lemma_line_end(c.text, c.at);
    let height = min(max(p.editor_viewport_height as int, 1), isize::MAX as int);
    crate::editor::lemma_rows_moved(c.text, c.at, height, p.editor_wrap_width as int);
    crate::editor::lemma_rows_moved(c.text, c.at, -height, p.editor_wrap_width as int);
    if can_complete(p) {
        lemma_citation_start(c.text, c.at);
    }
    if remembering(key) && normal_key_after(p, q, effect, key) {
        lemma_remembering_keeps_caret(p, q, effect, key);
    } else if q.editor_text@ != p.editor_text@ || q.editor_cursor != p.editor_cursor {
        assert(exists|d: Caret|
            #![trigger d.valid()]
            d.valid() && q.editor_text@ == d.text && q.editor_cursor == offset(d.text, d.at)) by {
            let d = if p.editor_insert_mode {
                if can_complete(p) && (key.code == KeyCode::Tab || key.code == KeyCode::Enter) {
                    completed(
                        c,
                        citation_start(c.text, c.at)->0,
                        p.completions@[p.completion_selected as int].insert_text@,
                    )
                } else if key.code == KeyCode::PageUp || key.code == KeyCode::PageDown {
                    editor_paged(p, key.code == KeyCode::PageUp)
                } else {
                    inserted(c, key).0
                }
            } else if motion(key.code) is Some {
                edited(c, KeyEvent { code: motion(key.code)->0, ..key })
            } else {
                match key.code {
                    KeyCode::Char('w') => c.moved(word_right(classes_of(c.text), c.at)),
                    KeyCode::Char('b') => c.moved(word_left(classes_of(c.text), c.at)),
                    KeyCode::Char('0') | KeyCode::Home => c.moved(line_start(c.text, c.at)),
                    KeyCode::Char('$') | KeyCode::End => c.moved(line_end(c.text, c.at)),
                    KeyCode::Backspace => c.moved(max(c.at - 1, 0)),
                    KeyCode::Delete | KeyCode::Char('x') => c.deleted(),
                    _ => editor_paged(p, key.code == KeyCode::PageUp),
                }
            };
            assert(d.valid());
        }
        let d = choose|d: Caret|
            #![trigger d.valid()]
            d.valid() && q.editor_text@ == d.text && q.editor_cursor == offset(d.text, d.at);
        crate::text::lemma_index_at(d.text, d.at);
    }
}

/// Keys of the projects workspace.
#[verifier::rlimit(60)]
pub fn handle_projects_key(app: &mut App, key: KeyEvent) -> (r: KeyEffect)
    requires
        editor_ok(old(app).project),
    ensures
        projects_after(*old(app), *final(app), r@, key),
{
    match shortcut_pane(key) {
        Some(pane) => return handle_project_pane_shortcut(app, pane),
        None => {},
    }
    if app.project.active.is_none() || app.project.pane == ProjectPane::ProjectList {
        return effect_of(handle_project_list_key(app, key));
    }
    if matches!(key.code, KeyCode::Esc) {
        if app.project.pane == ProjectPane::FileTree {
            return save_then(app, AfterSave::LeaveProject);
        }
        if app.project.pane == ProjectPane::Editor {
            return save_then(app, AfterSave::ShowFileTree);
        }
        show_file_tree(&mut app.project);
        return KeyEffect::Nothing;
    }
    if app.project.pane == ProjectPane::FileTree && matches!(key.code, KeyCode::Left) {
        if is_below_root(&app.project) {
            return KeyEffect::ListTreeParent;
        }
        return save_then(app, AfterSave::LeaveProject);
    }
    if key.modifiers.control && matches!(key.code, KeyCode::Char('s')) {
        if app.project.editor_path.is_some() {
            return KeyEffect::SaveProject(AfterSave::Stay);
        }
        return KeyEffect::Nothing;
    }
    if key.modifiers.control && key.modifiers.shift && matches!(key.code, KeyCode::Char('v' | 'V'))
        && is_project_bibtex_editor(app) {
        return KeyEffect::PasteClipboard;
    }
    if app.project.pane == ProjectPane::Editor && app.project.editor_insert_mode {
        handle_insert_key(&mut app.project, key);
        return KeyEffect::Nothing;
    }
    if matches!(key.code, KeyCode::Char('q')) {
        app.dispatch(Command::Quit);
        return KeyEffect::Nothing;
    }
    match app.project.pane {
        ProjectPane::Editor => handle_normal_key(&mut app.project, key),
        ProjectPane::FileTree => handle_project_tree_key(app, key),
        ProjectPane::Build => {
            handle_project_build_key(&mut app.project, key);
            KeyEffect::Nothing
        },
        ProjectPane::Preview => handle_project_preview_key(&mut app.pdf, key),
        ProjectPane::ProjectList => KeyEffect::Nothing,
    }
}

/// In the braces of a citation command, what is typed behind the last comma is the key
/// that is looked for, without the white space before it. A suggestion takes its place,
/// and the rest of the text stays.
pub proof fn lemma_citation_key_is_completed(
    head: Seq<char>,
    name: Seq<char>,
    done: Seq<char>,
    gap: Seq<char>,
    typed: Seq<char>,
    rest: Seq<char>,
    suggestion: Seq<char>,
)
    requires
        head.len() > 0,
        forall|i: int|
            0 <= i < name.len() ==> #[trigger] name[i] == '*' || 'a' <= name[i] <= 'z' || 'A'
                <= name[i] <= 'Z',
        done.len() == 0 || done.last() == ',',
        forall|i: int| 0 <= i < done.len() ==> #[trigger] done[i] != '{' && done[i] != '}',
        forall|i: int|
            0 <= i < gap.len() ==> whitespace(#[trigger] gap[i]) && gap[i] != ',' && gap[i] != '{'
                && gap[i] != '}',
        typed.len() > 0 ==> !whitespace(typed[0]),
        forall|i: int|
            0 <= i < typed.len() ==> #[trigger] typed[i] != ',' && typed[i] != '{' && typed[i]
                != '}',
    ensures
        ({
            let before = head + seq!['c', 'i', 't', 'e'] + name + seq!['{'] + done + gap;
            let text = before + typed + rest;
            let at = (before.len() + typed.len()) as int;
            &&& citation_start(text, at) == Some(before.len() as int)
            &&& completed(Caret { text, at }, before.len() as int, suggestion) == (Caret {
                text: before + suggestion + rest,
                at: (before.len() + suggestion.len()) as int,
            })
        }),
{
    let cite = head + seq!['c', 'i', 't', 'e'];
    let brace = (cite.len() + name.len()) as int;
    let before = cite + name + seq!['{'] + done + gap;
    let text = before + typed + rest;
    let n = before.len() as int;
    let at = n + typed.len();
    let from = brace + 1 + done.len();
    assert(text[brace] == '{');
    assert forall|i: int| brace < i < at implies text[i] != '{' && text[i] != '}' by {
        if i < from {
            assert(text[i] == done[i - brace - 1]);
        } else if i < n {
            assert(text[i] == gap[i - from]);
        } else {
            assert(text[i] == typed[i - n]);
        }
    }
    lemma_last_brace_is(text, brace, at);
    let q = cite.len() as int;
    assert(text[q - 4] == 'c' && text[q - 3] == 'i' && text[q - 2] == 't' && text[q - 1] == 'e');
    assert forall|i: int| q <= i < brace implies text[i] == '*' || crate::arxiv::ascii_letter(
        text[i],
    ) by {
        assert(text[i] == name[i - q]);
    }
    lemma_cites(text, q, brace);
    assert forall|i: int| from <= i < at implies text[i] != ',' && text[i] != '{' && text[i]
        != '}' by {
        if i < n {
            assert(text[i] == gap[i - from]);
        } else {
            assert(text[i] == typed[i - n]);
        }
    }
    if done.len() > 0 {
        assert(text[from - 1] == done.last());
    } else {
        assert(text[from - 1] == '{');
    }
    lemma_key_bound_is(text, from, at);
    assert forall|i: int| from <= i < n implies whitespace(text[i]) by {
        assert(text[i] == gap[i - from]);
    }
    if n < at {
        assert(text[n] == typed[0]);
    }
    lemma_spaces_skipped(text, from, n, at);
    let c = Caret { text, at };
    let cut = c.cut(n, at);
    assert(text.take(n) =~= before);
    assert(text.skip(at) =~= rest);
    assert(cut.text.take(n) =~= before);
    assert(cut.text.skip(n) =~= rest);
}

/// Outside of braces no citation is looked for.
pub proof fn lemma_no_citation_behind_braces(head: Seq<char>, typed: Seq<char>, rest: Seq<char>)
    requires
        forall|i: int| 0 <= i < typed.len() ==> #[trigger] typed[i] != '{' && typed[i] != '}',
    ensures
        citation_start(typed + rest, typed.len() as int) is None,
        citation_start(head + seq!['}'] + typed + rest, (head.len() + 1 + typed.len()) as int)
            is None,
{
    let s = typed + rest;
    assert forall|i: int| -1 < i < typed.len() implies s[i] != '{' && s[i] != '}' by {
        assert(s[i] == typed[i]);
    }
    lemma_last_brace_is(s, -1, typed.len() as int);
    let t = head + seq!['}'] + typed + rest;
    let n = head.len() as int;
    assert(t[n] == '}');
    assert forall|i: int| n < i < n + 1 + typed.len() implies t[i] != '{' && t[i] != '}' by {
        assert(t[i] == typed[i - n - 1]);
    }
    lemma_last_brace_is(t, n, n + 1 + typed.len());
}

proof fn lemma_last_brace_is(s: Seq<char>, b: int, k: int)
    requires
        -1 <= b < k <= s.len() || b == -1 && k == 0,
        b >= 0 ==> s[b] == '{' || s[b] == '}',
        forall|i: int| b < i < k ==> s[i] != '{' && s[i] != '}',
    ensures
        last_brace(s, k) == b,
    decreases k,
{
    if k > 0 && b < k - 1 {
        lemma_last_brace_is(s, b, k - 1);
    }
}

proof fn lemma_cites(s: Seq<char>, q: int, k: int)
    requires
        5 <= q <= k <= s.len(),
        s[q - 4] == 'c' && s[q - 3] == 'i' && s[q - 2] == 't' && s[q - 1] == 'e',
        forall|i: int| q <= i < k ==> s[i] == '*' || crate::arxiv::ascii_letter(s[i]),
    ensures
        cites_before(s, k),
    decreases k,
{
    if q < k {
        lemma_cites(s, q, k - 1);
    }
}

proof fn lemma_key_bound_is(s: Seq<char>, b: int, k: int)
    requires
        0 < b <= k <= s.len(),
        s[b - 1] == ',' || s[b - 1] == '{' || s[b - 1] == '}',
        forall|i: int| b <= i < k ==> s[i] != ',' && s[i] != '{' && s[i] != '}',
    ensures
        key_bound(s, k) == b,
    decreases k,
{
    if b < k {
        lemma_key_bound_is(s, b, k - 1);
    }
}

proof fn lemma_spaces_skipped(s: Seq<char>, j: int, n: int, k: int)
    requires
        0 <= j <= n <= k <= s.len(),
        n < k ==> !whitespace(s[n]),
        forall|i: int| j <= i < n ==> whitespace(s[i]),
    ensures
        skip_spaces(s, j, k) == n,
    decreases n - j,
{
    if j < n {
        lemma_spaces_skipped(s, j + 1, n, k);
    }
}

/// A pasted text stands at the caret as it is, and the caret behind it. It is saved, and
/// the text from before can be had back.
pub proof fn lemma_paste_stands_at_the_caret(
    before: App,
    after: App,
    effect: EffectView,
    a: Seq<char>,
    text: Seq<char>,
    b: Seq<char>,
)
    requires
        paste_after(before, after, text, effect),
        bibtex_editor(before),
        text.len() > 0,
        before.project.editor_text@ == a + b,
        before.project.editor_cursor == byte_len(a),
    ensures
        after.project.editor_text@ == a + text + b,
        after.project.editor_cursor == byte_len(a + text),
        after.project.editor_dirty,
        effect == EffectView::SaveProject(AfterSave::Stay),
        after.project.editor_memory@.undo == before.project.editor_memory@.undo.push(
            Caret { text: a + b, at: a.len() as int },
        ),
{
    crate::field::lemma_caret_between(a, b);
    assert((a + b).take(a.len() as int) =~= a);
    assert((a + b).skip(a.len() as int) =~= b);
    crate::field::lemma_caret_between(a + text, b);
    assert((a + text + b).len() != (a + b).len());
}

/// A text that was changed is saved before its pane is left, and while it is typed no
/// pane is left. Where nothing has to be saved, the other pane is shown at once.
pub proof fn lemma_changed_text_is_saved_first(
    before: App,
    after: App,
    effect: EffectView,
    pane: ProjectPane,
)
    requires
        shortcut_after(before, after, effect, pane),
        before.project.pane == ProjectPane::Editor,
        pane == ProjectPane::FileTree || pane == ProjectPane::Build,
        before.project.active is Some,
    ensures
        before.project.editor_insert_mode ==> after == before && effect == EffectView::Nothing,
        !before.project.editor_insert_mode && before.project.editor_dirty
            && before.project.editor_path is Some ==> after == before && effect
            == EffectView::SaveProject(AfterSave::Focus(pane)),
        !before.project.editor_insert_mode && !before.project.editor_dirty ==> after.project.pane
            == pane && after.project.editor_text == before.project.editor_text && effect
            == EffectView::Nothing,
{
}

/// The preview shows pages of the document only, one further or one back, or its first or
/// its last.
pub proof fn lemma_preview_stays_in_the_document(pdf: PdfState, code: KeyCode)
    requires
        1 <= pdf.page <= pdf.total_pages,
    ensures
        preview_page(pdf, code) matches Some(n) ==> 1 <= n <= pdf.total_pages,
        code == KeyCode::Down && pdf.page < pdf.total_pages ==> preview_page(pdf, code) == Some(
            pdf.page + 1,
        ),
        code == KeyCode::Up && pdf.page > 1 ==> preview_page(pdf, code) == Some(pdf.page - 1),
        code == KeyCode::Home ==> preview_page(pdf, code) == Some(1int),
        code == KeyCode::End ==> preview_page(pdf, code) == Some(pdf.total_pages as int),
{
}

/// The messages of a build scroll as far as their last, and not further. Each of them can
/// be scrolled to.
pub proof fn lemma_build_messages_scroll(p: ProjectState, code: KeyCode)
    requires
        p.build_viewport_height > 0,
        p.build_errors@.len() >= p.build_viewport_height,
        p.build_scroll + p.build_viewport_height <= p.build_errors@.len(),
    ensures
        0 <= build_scrolled(p, code) <= p.build_errors@.len() - p.build_viewport_height,
        code == KeyCode::Down && p.build_scroll + p.build_viewport_height < p.build_errors@.len()
            ==> build_scrolled(p, code) == p.build_scroll + 1,
        code == KeyCode::Up && p.build_scroll > 0 ==> build_scrolled(p, code) == p.build_scroll - 1,
        code == KeyCode::End ==> build_scrolled(p, code) + p.build_viewport_height
            == p.build_errors@.len(),
        code == KeyCode::Home ==> build_scrolled(p, code) == 0,
        code == KeyCode::PageUp && p.build_scroll >= p.build_viewport_height ==> build_scrolled(
            p,
            code,
        ) == p.build_scroll - p.build_viewport_height,
{
}

/// A project is found by its path, and a file by its own, however they are written.
pub proof fn lemma_found_by_path(items: Seq<Project>, files: Seq<String>, path: Seq<char>)
    ensures
        match project_at(items, path, 0) {
            Some(k) => 0 <= k < items.len() && path_key(items[k].path@) == path_key(path),
            None => forall|j: int|
                0 <= j < items.len() ==> path_key((#[trigger] items[j]).path@) != path_key(path),
        },
        forall|k: int|
            0 <= k < files.len() && path_key((#[trigger] files[k])@) == path_key(path) && (forall|
                j: int,
            |
                0 <= j < k ==> path_key((#[trigger] files[j])@) != path_key(path)) ==> file_at(
                files,
                path,
                0,
            ) == k,
{
    lemma_project_from(items, path, 0);
    assert forall|k: int|
        0 <= k < files.len() && path_key((#[trigger] files[k])@) == path_key(path) && (forall|
            j: int,
        |
            0 <= j < k ==> path_key((#[trigger] files[j])@) != path_key(path)) implies file_at(
        files,
        path,
        0,
    ) == k by {
        lemma_file_from(files, path, 0, k);
    }
}

proof fn lemma_project_from(items: Seq<Project>, path: Seq<char>, i: int)
    requires
        0 <= i <= items.len(),
    ensures
        match project_at(items, path, i) {
            Some(k) => i <= k < items.len() && path_key(items[k].path@) == path_key(path),
            None => forall|j: int|
                i <= j < items.len() ==> path_key((#[trigger] items[j]).path@) != path_key(path),
        },
    decreases items.len() - i,
{
    if i < items.len() && path_key(items[i].path@) != path_key(path) {
        lemma_project_from(items, path, i + 1);
    }
}

proof fn lemma_file_from(files: Seq<String>, path: Seq<char>, i: int, k: int)
    requires
        0 <= i <= k < files.len(),
        path_key(files[k]@) == path_key(path),
        forall|j: int| i <= j < k ==> path_key((#[trigger] files[j])@) != path_key(path),
    ensures
        file_at(files, path, i) == k,
    decreases k - i,
{
    if i < k {
        assert(path_key(files[i]@) != path_key(path));
        lemma_file_from(files, path, i + 1, k);
    }
}

} // verus!
