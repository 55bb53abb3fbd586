//! Which part of the program a key goes to.

use crate::action::{act, ActionView, UiAction};
use crate::chars::whitespace;
use crate::edit::{caret_of, edit_changes, edit_text, edited};
use crate::effect::{acting, effect_of, EffectView, KeyEffect};
use crate::keys::{KeyCode, KeyEvent, KeyEventKind};
use crate::modals::{
    at_filter_input, at_search_input, detail_action, detail_after, field_edited, filter_after,
    handle_confirm_delete_key, handle_discover_filter_key, handle_modal_key,
    handle_paper_detail_key, handle_search_key, handle_workspace_search_key, note_after,
    note_changes, prompt_action, note_edited, prompt_after, query_edited, saved_note, search_after, submits_search,
    workspace_search_after,
};
use crate::model::{
    all_carets_ok, carets_ok, App, AppMode, Command, DiscoveryState, LibraryPaper, Page,
    PaletteState, Project, ProjectPane, ProjectState, TerminalState,
};
use crate::navigation::{
    command_of, dispatched, navigation_command, normalize_panel_navigation, normalized, row_above,
    row_below, section_len, section_selected, select_above, select_below, with_mode, with_selected,
};
use crate::projects::{handle_projects_key, lemma_project_carets, projects_after};
use crate::rows::{
    count_marked, filtered_palette_items, nth_marked, offered_pages, page_of, positions, row,
};
use crate::strings::{is_blank, opt_text, same_text, trim, trimmed};
use crate::terminal::{requested, run_terminal_command, terminal_confirmed};
use crate::text::{byte_len, is_boundary, min, text_len};
use crate::workspaces::{
    acts_on_download, arxiv_reference, author_action, author_after, author_handled,
    bookmark_action, bookmark_result, collection_action, collection_after, collection_handled,
    credits_result, download_result, handle_author_key, handle_collection_key, handle_credits_key,
    handle_dashboard_key, handle_downloads_key, handle_notes_key, handle_reading_queue_key,
    library_action, library_paper, library_result, local_paper_id, no_page, notes_result,
    only_toast, open_arxiv_page, opens, opt_url, queue_result, remote_paper, remote_target,
    selected_local_paper_id, selected_paper_arxiv_reference, selected_remote_paper,
    selected_remote_target, KeyHandling,
};
use vstd::prelude::*;

verus! {

/// Whether a mode takes the name of something in a project.
pub open spec fn naming(mode: AppMode) -> bool {
    mode == AppMode::ProjectRename || mode == AppMode::ProjectCreate || mode
        == AppMode::ProjectFileCreate || mode == AppMode::ProjectEntryRename
}

/// Whether letters go to the editor of a project.
pub open spec fn editor_inserts(app: App) -> bool {
    app.page == Page::Projects && app.content_focused && app.project.pane == ProjectPane::Editor
        && app.project.editor_insert_mode
}

/// Whether letters go to a text.
pub open spec fn text_input(app: App) -> bool {
    naming(app.mode) || app.mode == AppMode::CommandPalette || app.mode
        == AppMode::TerminalCommand || app.mode == AppMode::NoteEdit || app.mode
        == AppMode::Prompt || app.mode == AppMode::Search || app.mode == AppMode::DiscoverFilter
        || app.mode == AppMode::WorkspaceSearch || editor_inserts(app)
}

/// Whether letters go to a text.
pub fn has_active_text_input(app: &App) -> (r: bool)
    ensures
        r == text_input(*app),
{
    matches!(
        app.mode,
        AppMode::ProjectRename | AppMode::ProjectCreate | AppMode::ProjectFileCreate
            | AppMode::ProjectEntryRename | AppMode::CommandPalette | AppMode::TerminalCommand
            | AppMode::NoteEdit | AppMode::Prompt | AppMode::Search | AppMode::DiscoverFilter
            | AppMode::WorkspaceSearch
    ) || (app.page == Page::Projects && app.content_focused && app.project.pane
        == ProjectPane::Editor && app.project.editor_insert_mode)
}

/// Where a key goes.
#[derive(Clone, Copy, Debug, PartialEq, Eq, Structural)]
pub enum Route {
    Pdf,
    OpenTerminal,
    Help,
    ProjectName,
    Palette,
    Terminal,
    HelpText,
    Modal,
    ConfirmDelete,
    Search,
    DiscoverFilter,
    WorkspaceSearch,
    NextResults,
    PreviousResults,
    TogglePalette,
    OpenSearch,
    Projects,
    LeaveResults,
    Control(Command),
    PaperDetail,
    Sidebar,
    Section,
}

/// Where a key goes: the first of these that takes it.
pub open spec fn route(app: App, key: KeyEvent) -> Route {
    let control = key.modifiers.control;
    if app.mode == AppMode::PdfView {
        Route::Pdf
    } else if control && key.code == KeyCode::Char('t') {
        Route::OpenTerminal
    } else if key.code == KeyCode::Char('?') && !text_input(app) {
        Route::Help
    } else if naming(app.mode) {
        Route::ProjectName
    } else if app.mode == AppMode::CommandPalette {
        Route::Palette
    } else if app.mode == AppMode::TerminalCommand {
        Route::Terminal
    } else if app.mode == AppMode::Help {
        Route::HelpText
    } else if app.mode == AppMode::NoteEdit || app.mode == AppMode::Prompt {
        Route::Modal
    } else if app.mode == AppMode::ConfirmDelete {
        Route::ConfirmDelete
    } else if app.mode == AppMode::Search {
        Route::Search
    } else if app.mode == AppMode::DiscoverFilter {
        Route::DiscoverFilter
    } else if app.mode == AppMode::WorkspaceSearch {
        Route::WorkspaceSearch
    } else if app.page == Page::Discover && control && key.code == KeyCode::Right {
        Route::NextResults
    } else if app.page == Page::Discover && control && key.code == KeyCode::Left {
        Route::PreviousResults
    } else if control && key.code == KeyCode::Char('b') {
        Route::TogglePalette
    } else if key.code == KeyCode::Char('/') && !editor_inserts(app) {
        Route::OpenSearch
    } else if app.page == Page::Projects && app.content_focused {
        Route::Projects
    } else if app.page == Page::Discover && app.content_focused && app.mode == AppMode::Normal
        && app.discovery.results@.len() > 0 && key.code == KeyCode::Left {
        Route::LeaveResults
    } else if control && command_of(normalized(key)) is Some {
        Route::Control(command_of(normalized(key))->0)
    } else if app.mode == AppMode::PaperDetail {
        Route::PaperDetail
    } else if !app.content_focused {
        Route::Sidebar
    } else {
        Route::Section
    }
}

/// Where a key goes.
pub fn route_key(app: &App, key: KeyEvent) -> (r: Route)
    ensures
        r == route(*app, key),
{
    let control: bool = key.modifiers.control;
    if app.mode == AppMode::PdfView {
        return Route::Pdf;
    }
    if control && matches!(key.code, KeyCode::Char('t')) {
        return Route::OpenTerminal;
    }
    if matches!(key.code, KeyCode::Char('?')) && !has_active_text_input(app) {
        return Route::Help;
    }
    match app.mode {
        AppMode::ProjectRename | AppMode::ProjectCreate | AppMode::ProjectFileCreate
        | AppMode::ProjectEntryRename => return Route::ProjectName,
        AppMode::CommandPalette => return Route::Palette,
        AppMode::TerminalCommand => return Route::Terminal,
        AppMode::Help => return Route::HelpText,
        AppMode::NoteEdit | AppMode::Prompt => return Route::Modal,
        AppMode::ConfirmDelete => return Route::ConfirmDelete,
        AppMode::Search => return Route::Search,
        AppMode::DiscoverFilter => return Route::DiscoverFilter,
        AppMode::WorkspaceSearch => return Route::WorkspaceSearch,
        _ => {},
    }
    if app.page == Page::Discover && control && matches!(key.code, KeyCode::Right) {
        return Route::NextResults;
    }
    if app.page == Page::Discover && control && matches!(key.code, KeyCode::Left) {
        return Route::PreviousResults;
    }
    if control && matches!(key.code, KeyCode::Char('b')) {
        return Route::TogglePalette;
    }
    if matches!(key.code, KeyCode::Char('/')) && !(app.page == Page::Projects
        && app.content_focused && app.project.pane == ProjectPane::Editor
        && app.project.editor_insert_mode) {
        return Route::OpenSearch;
    }
    if app.page == Page::Projects && app.content_focused {
        return Route::Projects;
    }
    if app.page == Page::Discover && app.content_focused && app.mode == AppMode::Normal
        && app.discovery.results.len() > 0 && matches!(key.code, KeyCode::Left) {
        return Route::LeaveResults;
    }
    if control {
        match navigation_command(normalize_panel_navigation(key)) {
            Some(command) => return Route::Control(command),
            None => {},
        }
    }
    if app.mode == AppMode::PaperDetail {
        return Route::PaperDetail;
    }
    if !app.content_focused {
        return Route::Sidebar;
    }
    Route::Section
}

/// `?` opens or closes help from every view but those that take text, where it
/// is a letter like any other.
pub proof fn lemma_help_is_global(app: App, key: KeyEvent)
    requires
        key.code == KeyCode::Char('?'),
        !key.modifiers.control,
        app.mode != AppMode::PdfView,
    ensures
        !text_input(app) ==> route(app, key) == Route::Help,
        text_input(app) ==> route(app, key) != Route::Help,
{
}

/// What a key does to an open document.
pub open spec fn pdf_effect(key: KeyEvent) -> EffectView {
    let pressed = key.kind == KeyEventKind::Press;
    let held = pressed || key.kind == KeyEventKind::Repeat;
    match key.code {
        KeyCode::Esc | KeyCode::Char('q') => if pressed {
            EffectView::Act(ActionView::ClosePdf)
        } else {
            EffectView::Nothing
        },
        KeyCode::Up | KeyCode::Char('k') => if held {
            EffectView::ScrollPdf(-1i64)
        } else {
            EffectView::Nothing
        },
        KeyCode::Down | KeyCode::Char('j') => if held {
            EffectView::ScrollPdf(1)
        } else {
            EffectView::Nothing
        },
        KeyCode::PageUp => if pressed {
            EffectView::PdfPageUp
        } else {
            EffectView::Nothing
        },
        KeyCode::PageDown => if pressed {
            EffectView::PdfPageDown
        } else {
            EffectView::Nothing
        },
        _ => EffectView::Nothing,
    }
}

fn handle_pdf_key(key: KeyEvent) -> (r: KeyEffect)
    ensures
        r@ == pdf_effect(key),
{
    let pressed: bool = matches!(key.kind, KeyEventKind::Press);
    let held: bool = matches!(key.kind, KeyEventKind::Press | KeyEventKind::Repeat);
    match key.code {
        KeyCode::Esc | KeyCode::Char('q') => if pressed {
            KeyEffect::Act(UiAction::ClosePdf)
        } else {
            KeyEffect::Nothing
        },
        KeyCode::Up | KeyCode::Char('k') => if held {
            KeyEffect::ScrollPdf(-1)
        } else {
            KeyEffect::Nothing
        },
        KeyCode::Down | KeyCode::Char('j') => if held {
            KeyEffect::ScrollPdf(1)
        } else {
            KeyEffect::Nothing
        },
        KeyCode::PageUp => if pressed {
            KeyEffect::PdfPageUp
        } else {
            KeyEffect::Nothing
        },
        KeyCode::PageDown => if pressed {
            KeyEffect::PdfPageDown
        } else {
            KeyEffect::Nothing
        },
        _ => KeyEffect::Nothing,
    }
}

/// The terminal prompt is open and empty, in the folder of the open project.
pub open spec fn terminal_opened(before: App, after: App) -> bool {
    &&& after == App { mode: AppMode::TerminalCommand, terminal: after.terminal, ..before }
    &&& after.terminal.command@.len() == 0
    &&& after.terminal.cursor == 0
    &&& after.terminal.output@.len() == 0
    &&& opt_text(after.terminal.directory) == (match before.project.active {
        Some(project) => Some(project.path@),
        None => None,
    })
}

fn open_terminal(app: &mut App)
    ensures
        terminal_opened(*old(app), *final(app)),
{
    app.mode = AppMode::TerminalCommand;
    app.terminal.command = String::new();
    app.terminal.cursor = 0;
    app.terminal.output = String::new();
    app.terminal.directory = match &app.project.active {
        Some(project) => Some(project.path.clone()),
        None => None,
    };
}

/// The project that a new name is for: the open one, or else the selected one.
pub open spec fn project_to_rename(p: ProjectState) -> Option<Project> {
    match p.active {
        Some(project) => Some(project),
        None => crate::projects::selected_project(p),
    }
}

/// What a confirmed name asks for.
pub open spec fn name_action(app: App) -> Option<ActionView> {
    let name = trimmed(app.project.rename_input@);
    if app.mode == AppMode::ProjectCreate {
        Some(ActionView::CreateProject(name))
    } else if app.mode == AppMode::ProjectFileCreate {
        Some(ActionView::CreateProjectFile(name))
    } else if app.mode == AppMode::ProjectEntryRename {
        match app.project.entry_rename_path {
            Some(path) => Some(ActionView::RenameProjectEntry { path: path@, name }),
            None => None,
        }
    } else {
        match project_to_rename(app.project) {
            Some(project) => Some(ActionView::RenameProject { project: project@, name }),
            None => None,
        }
    }
}

/// What a key does to the input of a name.
pub open spec fn name_after(before: App, after: App, key: KeyEvent) -> bool {
    let p = before.project;
    if key.code == KeyCode::Esc {
        &&& after == App {
            mode: AppMode::Normal,
            project: ProjectState {
                rename_input: after.project.rename_input,
                rename_cursor: 0,
                entry_rename_path: None,
                ..p
            },
            ..before
        }
        &&& after.project.rename_input@.len() == 0
    } else if key.code == KeyCode::Enter {
        &&& after == App {
            mode: AppMode::Normal,
            project: ProjectState {
                rename_input: after.project.rename_input,
                rename_cursor: 0,
                entry_rename_path: if before.mode == AppMode::ProjectEntryRename {
                    None
                } else {
                    p.entry_rename_path
                },
                ..p
            },
            ..before
        }
        &&& after.project.rename_input@.len() == 0
    } else {
        &&& after == App {
            project: ProjectState {
                rename_input: after.project.rename_input,
                rename_cursor: after.project.rename_cursor,
                ..p
            },
            ..before
        }
        &&& field_edited(
            p.rename_input,
            p.rename_cursor,
            after.project.rename_input,
            after.project.rename_cursor,
            key,
        )
    }
}

fn handle_name_key(app: &mut App, key: KeyEvent) -> (r: Option<UiAction>)
    requires
        carets_ok(*old(app)),
    ensures
        name_after(*old(app), *final(app), key),
        act(r) == (if key.code == KeyCode::Enter {
            name_action(*old(app))
        } else {
            None
        }),
{
    match key.code {
        KeyCode::Esc => {
            app.project.rename_input = String::new();
            app.project.rename_cursor = 0;
            app.project.entry_rename_path = None;
            app.mode = AppMode::Normal;
            None
        },
        KeyCode::Enter => {
            let mode: AppMode = app.mode;
            let name = trim(app.project.rename_input.as_str());
            app.mode = AppMode::Normal;
            app.project.rename_input = String::new();
            app.project.rename_cursor = 0;
            match mode {
                AppMode::ProjectCreate => Some(UiAction::CreateProject(name)),
                AppMode::ProjectFileCreate => Some(UiAction::CreateProjectFile(name)),
                AppMode::ProjectEntryRename => {
                    match app.project.entry_rename_path.take() {
                        Some(path) => Some(UiAction::RenameProjectEntry { path, name }),
                        None => None,
                    }
                },
                _ => {
                    match &app.project.active {
                        Some(project) => Some(
                            UiAction::RenameProject { project: project.copy(), name },
                        ),
                        None => {
                            let k: usize = app.project.selected;
                            if k < app.project.items.len() {
                                Some(
                                    UiAction::RenameProject {
                                        project: app.project.items[k].copy(),
                                        name,
                                    },
                                )
                            } else {
                                None
                            }
                        },
                    }
                },
            }
        },
        _ => {
            let _ = edit_text(&mut app.project.rename_input, &mut app.project.rename_cursor, key);
            None
        },
    }
}

/// Number of the sections that the navigator offers.
pub open spec fn palette_len(app: App) -> int {
    positions(offered_pages(app.palette.query@)).len() as int
}

/// The section that is selected in the navigator.
pub open spec fn palette_page(app: App) -> Option<Page> {
    match row(offered_pages(app.palette.query@), app.palette.selected as int) {
        Some(i) => Some(page_of(i)),
        None => None,
    }
}

/// A section opened from the navigator.
pub open spec fn page_opened(app: App, page: Page) -> App {
    App {
        page,
        sidebar_index: crate::model::page_index(page) as usize,
        content_focused: true,
        mode: if app.search.active.has(page) {
            AppMode::WorkspaceSearch
        } else {
            AppMode::Normal
        },
        ..app
    }
}

/// What a key does in the navigator.
pub open spec fn palette_after(before: App, after: App, key: KeyEvent) -> bool {
    let p = before.palette;
    match key.code {
        KeyCode::Esc => after == dispatched(before, Command::TogglePalette),
        KeyCode::Up => after == App {
            palette: PaletteState { selected: row_above(p.selected), ..p },
            ..before
        },
        KeyCode::Down => after == App {
            palette: PaletteState { selected: row_below(p.selected, palette_len(before)), ..p },
            ..before
        },
        KeyCode::Enter => match palette_page(before) {
            Some(page) => after == page_opened(before, page),
            None => after == before,
        },
        _ => {
            let q = after.palette;
            &&& after == App {
                palette: PaletteState {
                    query: q.query,
                    query_cursor: q.query_cursor,
                    selected: if edit_changes(caret_of(p.query@, p.query_cursor as int), key)
                        && q.query@ != p.query@ {
                        0
                    } else {
                        p.selected
                    },
                    ..p
                },
                ..before
            }
            &&& field_edited(p.query, p.query_cursor, q.query, q.query_cursor, key)
        },
    }
}

fn handle_palette_key(app: &mut App, key: KeyEvent)
    requires
        carets_ok(*old(app)),
        old(app).mode == AppMode::CommandPalette,
    ensures
        palette_after(*old(app), *final(app), key),
{
    match key.code {
        KeyCode::Esc => app.dispatch(Command::TogglePalette),
        KeyCode::Up => app.palette.selected = select_above(app.palette.selected),
        KeyCode::Down => {
            let items = filtered_palette_items(app.palette.query.as_str());
            app.palette.selected = select_below(app.palette.selected, count_marked(&items));
        },
        KeyCode::Enter => {
            let items = filtered_palette_items(app.palette.query.as_str());
            match nth_marked(&items, app.palette.selected) {
                Some(i) => match Page::at(i) {
                    Some(page) => {
                        proof {
                            crate::rows::lemma_page_of(page);
                        }
                        app.sidebar_index = i;
                        app.page = page;
                        app.content_focused = true;
                        app.mode = if app.search.active.contains(page) {
                            AppMode::WorkspaceSearch
                        } else {
                            AppMode::Normal
                        };
                    },
                    None => {},
                },
                None => {},
            }
        },
        _ => {
            let before = app.palette.query.clone();
            let changed: bool = edit_text(
                &mut app.palette.query,
                &mut app.palette.query_cursor,
                key,
            );
            if changed && !same_text(app.palette.query.as_str(), before.as_str()) {
                app.palette.selected = 0;
            }
        },
    }
}

/// What a key does to the terminal prompt.
pub open spec fn terminal_after(before: App, after: App, effect: EffectView, key: KeyEvent) -> bool {
    match key.code {
        KeyCode::Esc => after == with_mode(before, AppMode::Normal) && effect
            == EffectView::Nothing,
        KeyCode::Enter => {
            &&& after == App { terminal: after.terminal, ..before }
            &&& terminal_confirmed(before.terminal, after.terminal)
            &&& effect == EffectView::RunTerminal(requested(before.terminal.command@))
        },
        _ => {
            let t = after.terminal;
            &&& effect == EffectView::Nothing
            &&& after == App {
                terminal: TerminalState { command: t.command, cursor: t.cursor, ..before.terminal },
                ..before
            }
            &&& field_edited(
                before.terminal.command,
                before.terminal.cursor,
                t.command,
                t.cursor,
                key,
            )
        },
    }
}

fn handle_terminal_key(app: &mut App, key: KeyEvent) -> (r: KeyEffect)
    requires
        carets_ok(*old(app)),
    ensures
        terminal_after(*old(app), *final(app), r@, key),
{
    match key.code {
        KeyCode::Esc => {
            app.mode = AppMode::Normal;
            KeyEffect::Nothing
        },
        KeyCode::Enter => KeyEffect::RunTerminal(run_terminal_command(&mut app.terminal)),
        _ => {
            let _ = edit_text(&mut app.terminal.command, &mut app.terminal.cursor, key);
            KeyEffect::Nothing
        },
    }
}

/// How far the help is scrolled after a key.
pub open spec fn help_scrolled(scroll: int, code: KeyCode) -> int {
    match code {
        KeyCode::Up | KeyCode::Char('k') => crate::text::max(scroll - 1, 0),
        KeyCode::Down | KeyCode::Char('j') => min(scroll + 1, usize::MAX as int),
        KeyCode::PageUp => crate::text::max(scroll - 10, 0),
        KeyCode::PageDown => min(scroll + 10, usize::MAX as int),
        KeyCode::Home => 0,
        KeyCode::End => usize::MAX as int,
        _ => scroll,
    }
}

/// The state after a key in the help.
pub open spec fn help_state(app: App, code: KeyCode) -> App {
    if code == KeyCode::Esc || code == KeyCode::Char('?') || code == KeyCode::Char('q') {
        dispatched(app, Command::ToggleHelp)
    } else {
        App { help_scroll: help_scrolled(app.help_scroll as int, code) as usize, ..app }
    }
}

fn handle_help_key(app: &mut App, key: KeyEvent)
    ensures
        *final(app) == help_state(*old(app), key.code),
{
    match key.code {
        KeyCode::Esc | KeyCode::Char('?' | 'q') => app.dispatch(Command::ToggleHelp),
        KeyCode::Up | KeyCode::Char('k') => app.help_scroll = app.help_scroll.saturating_sub(1),
        KeyCode::Down | KeyCode::Char('j') => app.help_scroll = app.help_scroll.saturating_add(1),
        KeyCode::PageUp => app.help_scroll = app.help_scroll.saturating_sub(10),
        KeyCode::PageDown => app.help_scroll = app.help_scroll.saturating_add(10),
        KeyCode::Home => app.help_scroll = 0,
        KeyCode::End => app.help_scroll = usize::MAX,
        _ => {},
    }
}

/// The search input is open over the search results.
pub open spec fn search_opened(app: App) -> App {
    App {
        page: Page::Discover,
        sidebar_index: 1,
        content_focused: true,
        ..at_search_input(app)
    }
}

/// The state after a key while the sidebar has the focus.
pub open spec fn sidebar_state(app: App, key: KeyEvent) -> App {
    if app.page == Page::Settings && opens(key.code) {
        App { content_focused: true, ..app }
    } else {
        match command_of(key) {
            Some(command) => dispatched(app, command),
            None => app,
        }
    }
}

/// Told to the user when loading results has failed in the middle.
pub open spec fn retry_message() -> Seq<char> {
    "More results could not be loaded. Press r to retry."@
}

/// Which part of a section takes a key.
#[derive(Clone, Copy, Debug, PartialEq, Eq, Structural)]
pub enum SectionRoute {
    RetryMore,
    SearchAgain,
    Reindex,
    Browse,
    CopyRemote,
    DownloadRemote,
    MarkUnread,
    ToggleQueued,
    OpenDashboard,
    Collections,
    Authors,
    Bookmarks,
    Notes,
    Queue,
    Credits,
    Filter,
    OpenResult,
    Downloads,
    Library,
    ToInput,
    Run(Command),
    Nothing,
}

/// Which part of the open section takes a key: the first that has a use for it.
pub open spec fn section_route(app: App, key: KeyEvent) -> SectionRoute {
    let code = key.code;
    let page = app.page;
    if code == KeyCode::Char('r') && page == Page::Discover && trimmed(app.discovery.query@).len()
        > 0 {
        if app.discovery.next_batch_start is Some && opt_text(app.discovery.progress_message)
            == Some(retry_message()) {
            SectionRoute::RetryMore
        } else {
            SectionRoute::SearchAgain
        }
    } else if code == KeyCode::Char('r') && page == Page::Library {
        SectionRoute::Reindex
    } else if code == KeyCode::Char('o') && arxiv_reference(app) is Some {
        SectionRoute::Browse
    } else if code == KeyCode::Char('c') && (page == Page::Dashboard || page == Page::Discover) {
        SectionRoute::CopyRemote
    } else if code == KeyCode::Char('d') && (page == Page::Dashboard || page == Page::Discover) {
        SectionRoute::DownloadRemote
    } else if code == KeyCode::Char('u') && local_paper_id(app) is Some {
        SectionRoute::MarkUnread
    } else if code == KeyCode::Char('a') && local_paper_id(app) is Some {
        SectionRoute::ToggleQueued
    } else if page == Page::Dashboard && opens(code) {
        SectionRoute::OpenDashboard
    } else if page == Page::Collections && collection_handled(app, code) {
        SectionRoute::Collections
    } else if page == Page::Authors && author_handled(app, code) {
        SectionRoute::Authors
    } else if bookmark_result(app, code) is Some {
        SectionRoute::Bookmarks
    } else if notes_result(app, code) is Some {
        SectionRoute::Notes
    } else if queue_result(app, key) is Some {
        SectionRoute::Queue
    } else if credits_result(app, code) is Some {
        SectionRoute::Credits
    } else if page == Page::Discover && code == KeyCode::Char('>') && app.discovery.results@.len()
        > 0 {
        SectionRoute::Filter
    } else if page == Page::Discover && opens(code) {
        SectionRoute::OpenResult
    } else if download_result(app, code) is Some {
        SectionRoute::Downloads
    } else if library_result(app, code) is Some {
        SectionRoute::Library
    } else {
        match command_of(key) {
            Some(command) => if page == Page::Discover && command == Command::MoveUp
                && app.discovery.selected == 0 {
                SectionRoute::ToInput
            } else {
                SectionRoute::Run(command)
            },
            None => SectionRoute::Nothing,
        }
    }
}

/// Whether a paper waits in the reading queue.
pub open spec fn queued(app: App, id: i64) -> bool {
    exists|i: int| 0 <= i < app.queue.papers@.len() && (#[trigger] app.queue.papers@[i]).id == id
}

/// What a key asks for in the open section.
pub open spec fn section_action(app: App, key: KeyEvent) -> Option<ActionView> {
    match section_route(app, key) {
        SectionRoute::RetryMore => Some(ActionView::RetryDiscoverMore),
        SectionRoute::SearchAgain => Some(ActionView::Search(trimmed(app.discovery.query@))),
        SectionRoute::Reindex => Some(ActionView::Reindex),
        SectionRoute::Browse => match opt_url(arxiv_reference(app)->0) {
            Some(url) => Some(ActionView::OpenBrowser(url)),
            None => None,
        },
        SectionRoute::CopyRemote => match remote_target(app) {
            Some(t) => Some(ActionView::CopyCitation(t)),
            None => None,
        },
        SectionRoute::DownloadRemote => match remote_paper(app) {
            Some(p) => Some(ActionView::Download(p@)),
            None => None,
        },
        SectionRoute::MarkUnread => Some(ActionView::MarkUnread(local_paper_id(app)->0)),
        SectionRoute::ToggleQueued => {
            let id = local_paper_id(app)->0;
            if queued(app, id) {
                Some(ActionView::RemoveFromQueue(id))
            } else {
                Some(ActionView::AddToQueue(id))
            }
        },
        SectionRoute::OpenDashboard | SectionRoute::OpenResult => match remote_paper(app) {
            Some(p) => Some(ActionView::OpenPaper(p@)),
            None => None,
        },
        SectionRoute::Collections => collection_action(app, key.code),
        SectionRoute::Authors => author_action(app, key.code),
        SectionRoute::Bookmarks => bookmark_result(app, key.code),
        SectionRoute::Notes => notes_result(app, key.code),
        SectionRoute::Queue => queue_result(app, key),
        SectionRoute::Credits => credits_result(app, key.code),
        SectionRoute::Downloads => download_result(app, key.code),
        SectionRoute::Library => library_result(app, key.code),
        _ => None,
    }
}

/// The same, with papers of the library that are met on the way marked as
/// coming back to the plain view.
pub open spec fn past_papers(app: App, key: KeyEvent) -> App {
    if app.page == Page::Library && library_paper(app) is Some && !opens(key.code) && key.code
        != KeyCode::Char('x') {
        App { modal_return: AppMode::Normal, ..app }
    } else {
        app
    }
}

/// What a key does to the state in the open section.
pub open spec fn section_after(before: App, after: App, key: KeyEvent) -> bool {
    match section_route(before, key) {
        SectionRoute::SearchAgain => {
            &&& after == App {
                discovery: DiscoveryState { query: after.discovery.query, ..before.discovery },
                ..before
            }
            &&& after.discovery.query@ == trimmed(before.discovery.query@)
        },
        SectionRoute::Browse => if opt_url(arxiv_reference(before)->0) is None {
            only_toast(before, after, no_page())
        } else {
            after == before
        },
        SectionRoute::Collections => collection_after(before, after, key.code),
        SectionRoute::Authors => author_after(before, after, key.code),
        SectionRoute::Filter => after == at_filter_input(before),
        SectionRoute::Downloads => after == if acts_on_download(before, key.code) {
            App { modal_return: AppMode::Normal, ..before }
        } else {
            before
        },
        SectionRoute::Library => after == past_papers(before, key),
        SectionRoute::ToInput => after == if before.discovery.results@.len() == 0 {
            with_mode(before, AppMode::Search)
        } else {
            at_filter_input(before)
        },
        SectionRoute::Run(command) => after == dispatched(past_papers(before, key), command),
        SectionRoute::Nothing => after == past_papers(before, key),
        _ => after == before,
    }
}

fn is_queued(papers: &Vec<LibraryPaper>, id: i64) -> (r: bool)
    ensures
        r == exists|i: int| 0 <= i < papers@.len() && (#[trigger] papers@[i]).id == id,
{
    let mut i: usize = 0;
    while i < papers.len()
        invariant
            i <= papers@.len(),
            forall|j: int| 0 <= j < i ==> (#[trigger] papers@[j]).id != id,
        decreases papers@.len() - i,
    {
        if papers[i].id == id {
            return true;
        }
        i = i + 1;
    }
    false
}

fn says(a: &Option<String>, b: &str) -> (r: bool)
    ensures
        r == (opt_text(*a) == Some(b@)),
{
    match a {
        Some(s) => same_text(s.as_str(), b),
        None => false,
    }
}

/// Whether a key acts on papers from every section that shows some.
pub open spec fn paper_shortcut(route: SectionRoute) -> bool {
    match route {
        SectionRoute::RetryMore | SectionRoute::SearchAgain | SectionRoute::Reindex
        | SectionRoute::Browse | SectionRoute::CopyRemote | SectionRoute::DownloadRemote
        | SectionRoute::MarkUnread | SectionRoute::ToggleQueued => true,
        _ => false,
    }
}

/// Whether a section has a use of its own for a key.
pub open spec fn section_own(route: SectionRoute) -> bool {
    match route {
        SectionRoute::OpenDashboard | SectionRoute::Collections | SectionRoute::Authors
        | SectionRoute::Bookmarks | SectionRoute::Notes | SectionRoute::Queue
        | SectionRoute::Credits => true,
        _ => false,
    }
}

fn handle_paper_shortcut(app: &mut App, key: KeyEvent) -> (r: KeyHandling)
    ensures
        r is Handled == paper_shortcut(section_route(*old(app), key)),
        r is Ignored ==> *final(app) == *old(app),
        r matches KeyHandling::Handled(action) ==> act(action) == section_action(*old(app), key)
            && section_after(*old(app), *final(app), key),
{
    let code: KeyCode = key.code;
    if matches!(code, KeyCode::Char('r')) && app.page == Page::Discover && !is_blank(
        app.discovery.query.as_str(),
    ) {
        if app.discovery.next_batch_start.is_some() && says(
            &app.discovery.progress_message,
            "More results could not be loaded. Press r to retry.",
        ) {
            return KeyHandling::Handled(Some(UiAction::RetryDiscoverMore));
        }
        let query = trim(app.discovery.query.as_str());
        app.discovery.query = query.clone();
        return KeyHandling::Handled(Some(UiAction::Search(query)));
    }
    if matches!(code, KeyCode::Char('r')) && app.page == Page::Library {
        return KeyHandling::Handled(Some(UiAction::Reindex));
    }
    if matches!(code, KeyCode::Char('o')) {
        match selected_paper_arxiv_reference(app) {
            Some(reference) => return KeyHandling::Handled(open_arxiv_page(app, reference)),
            None => {},
        }
    }
    if matches!(app.page, Page::Dashboard | Page::Discover) {
        match code {
            KeyCode::Char('c') => {
                return KeyHandling::Handled(
                    match selected_remote_target(app) {
                        Some(t) => Some(UiAction::CopyCitation(t)),
                        None => None,
                    },
                );
            },
            KeyCode::Char('d') => {
                return KeyHandling::Handled(
                    match selected_remote_paper(app) {
                        Some(p) => Some(UiAction::Download(p.copy())),
                        None => None,
                    },
                );
            },
            _ => {},
        }
    }
    if matches!(code, KeyCode::Char('u')) {
        match selected_local_paper_id(app) {
            Some(id) => return KeyHandling::Handled(Some(UiAction::MarkUnread(id))),
            None => {},
        }
    }
    if matches!(code, KeyCode::Char('a')) {
        match selected_local_paper_id(app) {
            Some(id) => {
                if is_queued(&app.queue.papers, id) {
                    return KeyHandling::Handled(Some(UiAction::RemoveFromQueue(id)));
                }
                return KeyHandling::Handled(Some(UiAction::AddToQueue(id)));
            },
            None => {},
        }
    }
    KeyHandling::Ignored
}

#[verifier::rlimit(40)]
fn handle_own_key(app: &mut App, key: KeyEvent) -> (r: KeyHandling)
    requires
        key == normalized(key),
        !paper_shortcut(section_route(*old(app), key)),
    ensures
        r is Handled == section_own(section_route(*old(app), key)),
        r is Ignored ==> *final(app) == *old(app),
        r matches KeyHandling::Handled(action) ==> act(action) == section_action(*old(app), key)
            && section_after(*old(app), *final(app), key),
{
    match handle_dashboard_key(app, key) {
        KeyHandling::Handled(action) => return KeyHandling::Handled(action),
        KeyHandling::Ignored => {},
    }
    if app.page == Page::Collections {
        let (handled, action) = handle_collection_key(app, key);
        if handled {
            return KeyHandling::Handled(action);
        }
    }
    if app.page == Page::Authors {
        let (handled, action) = handle_author_key(app, key);
        if handled {
            return KeyHandling::Handled(action);
        }
    }
    match bookmark_action(app, key) {
        Some(action) => return KeyHandling::Handled(Some(action)),
        None => {},
    }
    match handle_notes_key(app, key) {
        Some(action) => return KeyHandling::Handled(Some(action)),
        None => {},
    }
    match handle_reading_queue_key(app, key) {
        Some(action) => return KeyHandling::Handled(Some(action)),
        None => {},
    }
    match handle_credits_key(app, key) {
        Some(action) => return KeyHandling::Handled(Some(action)),
        None => {},
    }
    KeyHandling::Ignored
}

/// Keys of the open section while its content has the focus.
#[verifier::rlimit(40)]
fn handle_section_key(app: &mut App, key: KeyEvent) -> (r: Option<UiAction>)
    requires
        key == normalized(key),
    ensures
        act(r) == section_action(*old(app), key),
        section_after(*old(app), *final(app), key),
{
    let code: KeyCode = key.code;
    match handle_paper_shortcut(app, key) {
        KeyHandling::Handled(action) => return action,
        KeyHandling::Ignored => {},
    }
    match handle_own_key(app, key) {
        KeyHandling::Handled(action) => return action,
        KeyHandling::Ignored => {},
    }
    if app.page == Page::Discover && matches!(code, KeyCode::Char('>'))
        && app.discovery.results.len() > 0 {
        app.mode = AppMode::DiscoverFilter;
        app.discovery.filter_cursor = text_len(app.discovery.filter.as_str());
        return None;
    }
    if app.page == Page::Discover && matches!(
        code,
        KeyCode::Enter | KeyCode::Right | KeyCode::Char('l')
    ) {
        return match selected_remote_paper(app) {
            Some(p) => Some(UiAction::OpenPaper(p.copy())),
            None => None,
        };
    }
    match handle_downloads_key(app, key) {
        Some(action) => return Some(action),
        None => {},
    }
    match library_action(app, key) {
        Some(action) => return Some(action),
        None => {},
    }
    match navigation_command(key) {
        Some(command) => {
            if app.page == Page::Discover && command == Command::MoveUp && app.discovery.selected
                == 0 {
                if app.discovery.results.len() == 0 {
                    app.mode = AppMode::Search;
                } else {
                    app.mode = AppMode::DiscoverFilter;
                    app.discovery.filter_cursor = text_len(app.discovery.filter.as_str());
                }
                return None;
            }
            app.dispatch(command);
        },
        None => {},
    }
    None
}

/// What a key does to the program, and what it asks for.
pub open spec fn key_handled(before: App, after: App, effect: EffectView, key: KeyEvent) -> bool {
    match route(before, key) {
        Route::Pdf => after == before && effect == pdf_effect(key),
        Route::OpenTerminal => terminal_opened(before, after) && effect == EffectView::Nothing,
        Route::Help => after == dispatched(before, Command::ToggleHelp) && effect
            == EffectView::Nothing,
        Route::ProjectName => name_after(before, after, key) && effect == acting(
            if key.code == KeyCode::Enter {
                name_action(before)
            } else {
                None
            },
        ),
        Route::Palette => palette_after(before, after, key) && effect == EffectView::Nothing,
        Route::Terminal => terminal_after(before, after, effect, key),
        Route::HelpText => after == help_state(before, key.code) && effect == EffectView::Nothing,
        Route::Modal => if before.mode == AppMode::Prompt {
            prompt_after(before, after, key) && effect == acting(prompt_action(before, key))
        } else {
            note_after(before, after, key) && effect == acting(
                if key.code == KeyCode::Tab {
                    None
                } else if key.code == KeyCode::Esc || note_changes(before, key) {
                    saved_note(after)
                } else {
                    None
                },
            )
        },
        Route::ConfirmDelete => {
            let agreed = crate::modals::agrees(key.code);
            &&& effect == acting(
                match before.delete_confirmation {
                    Some(target) => if agreed {
                        Some(crate::modals::deletion(target))
                    } else {
                        None
                    },
                    None => None,
                },
            )
            &&& after == if agreed && before.delete_confirmation is None {
                before
            } else if agreed || crate::modals::refuses(key.code) {
                App { delete_confirmation: None, mode: AppMode::Normal, ..before }
            } else {
                before
            }
        },
        Route::Search => search_after(before, after, key) && effect == acting(
            if submits_search(before, key) {
                Some(ActionView::Search(trimmed(before.discovery.query@)))
            } else {
                None
            },
        ),
        Route::DiscoverFilter => filter_after(before, after, key) && effect
            == EffectView::Nothing,
        Route::WorkspaceSearch => workspace_search_after(before, after, key) && effect
            == EffectView::Nothing,
        Route::NextResults => {
            let d = before.discovery;
            &&& after == App {
                discovery: if (d.page + 1) * crate::rows::RESULTS_PER_PAGE < d.visible().len() {
                    DiscoveryState { page: (d.page + 1) as usize, selected: 0, scroll: 0, ..d }
                } else {
                    d
                },
                ..before
            }
            &&& effect == EffectView::Nothing
        },
        Route::PreviousResults => {
            let d = before.discovery;
            &&& after == App {
                discovery: if d.page > 0 {
                    DiscoveryState { page: (d.page - 1) as usize, selected: 0, scroll: 0, ..d }
                } else {
                    d
                },
                ..before
            }
            &&& effect == EffectView::Nothing
        },
        Route::TogglePalette => after == dispatched(before, Command::TogglePalette) && effect
            == EffectView::Nothing,
        Route::OpenSearch => after == search_opened(before) && effect == EffectView::Nothing,
        Route::Projects => projects_after(before, after, effect, key),
        Route::LeaveResults => after == App { content_focused: false, ..before } && effect
            == EffectView::Nothing,
        Route::Control(command) => after == dispatched(before, command) && effect
            == EffectView::Nothing,
        Route::PaperDetail => {
            let code = normalized(key).code;
            detail_after(before, after, code) && effect == acting(detail_action(before, code))
        },
        Route::Sidebar => after == sidebar_state(before, normalized(key)) && effect
            == EffectView::Nothing,
        Route::Section => section_after(before, after, normalized(key)) && effect == acting(
            section_action(before, normalized(key)),
        ),
    }
}

proof fn lemma_field(text: String, cursor: usize, new_text: String, new_cursor: usize, key: KeyEvent)
    requires
        is_boundary(text@, cursor as int),
        field_edited(text, cursor, new_text, new_cursor, key),
    ensures
        is_boundary(new_text@, new_cursor as int),
{
    let c = caret_of(text@, cursor as int);
    crate::text::lemma_boundary(text@, cursor as int);
    crate::edit::lemma_edited_valid(c, key);
    crate::text::lemma_index_at(edited(c, key).text, edited(c, key).at);
}

/// Whether a key takes white space from around the search query.
pub open spec fn trims_query(app: App, key: KeyEvent) -> bool {
    trimmed(app.discovery.query@) != app.discovery.query@ && (route(app, key) == Route::Search || (
    route(app, key) == Route::Section && section_route(app, normalized(key))
        == SectionRoute::SearchAgain))
}

/// Every key leaves the carets of the shown inputs between two characters. The
/// caret of the hidden search input stays where it was when the query loses
/// white space around it.
#[verifier::spinoff_prover]
pub proof fn lemma_carets_stay_valid(before: App, after: App, effect: EffectView, key: KeyEvent)
    requires
        all_carets_ok(before),
        key_handled(before, after, effect, key),
        byte_len(before.discovery.query@) <= usize::MAX,
        byte_len(before.discovery.filter@) <= usize::MAX,
    ensures
        !trims_query(before, key) ==> all_carets_ok(after),
        before.modal_return != AppMode::Search && before.help_return_mode != AppMode::Search
            ==> carets_ok(after),
{
    if to_an_input(route(before, key)) {
        lemma_input_carets(before, after, effect, key);
    } else {
        lemma_other_carets(before, after, effect, key);
    }
}

/// Whether a key goes to an input of one line.
spec fn to_an_input(route: Route) -> bool {
    ||| route is ProjectName
    ||| route is Palette
    ||| route is OpenTerminal
    ||| route is Terminal
    ||| route is Search
    ||| route is DiscoverFilter
    ||| route is WorkspaceSearch
}

#[verifier::spinoff_prover]
#[verifier::rlimit(60)]
proof fn lemma_input_carets(before: App, after: App, effect: EffectView, key: KeyEvent)
    requires
        to_an_input(route(before, key)),
        all_carets_ok(before),
        key_handled(before, after, effect, key),
        byte_len(before.discovery.query@) <= usize::MAX,
        byte_len(before.discovery.filter@) <= usize::MAX,
    ensures
        !trims_query(before, key) ==> all_carets_ok(after),
        before.modal_return != AppMode::Search && before.help_return_mode != AppMode::Search
            ==> carets_ok(after),
{
    crate::text::lemma_boundary_ends(before.discovery.query@);
    crate::text::lemma_boundary_ends(before.discovery.filter@);
    match route(before, key) {
        Route::ProjectName => {
            crate::text::lemma_boundary_ends(after.project.rename_input@);
            if key.code != KeyCode::Esc && key.code != KeyCode::Enter {
                lemma_field(
                    before.project.rename_input,
                    before.project.rename_cursor,
                    after.project.rename_input,
                    after.project.rename_cursor,
                    key,
                );
            }
        },
        Route::Palette => {
            if key.code != KeyCode::Esc && key.code != KeyCode::Enter && key.code != KeyCode::Up
                && key.code != KeyCode::Down {
                lemma_field(
                    before.palette.query,
                    before.palette.query_cursor,
                    after.palette.query,
                    after.palette.query_cursor,
                    key,
                );
            }
        },
        Route::OpenTerminal => {
            crate::text::lemma_boundary_ends(after.terminal.command@);
        },
        Route::Terminal => {
            crate::text::lemma_boundary_ends(after.terminal.command@);
            if key.code != KeyCode::Esc && key.code != KeyCode::Enter {
                lemma_field(
                    before.terminal.command,
                    before.terminal.cursor,
                    after.terminal.command,
                    after.terminal.cursor,
                    key,
                );
            }
        },
        Route::Search => {
            if query_edited(before, after, key) {
                lemma_field(
                    before.discovery.query,
                    before.discovery.query_cursor,
                    after.discovery.query,
                    after.discovery.query_cursor,
                    key,
                );
            }
        },
        Route::DiscoverFilter => {
            if field_edited(
                before.discovery.filter,
                before.discovery.filter_cursor,
                after.discovery.filter,
                after.discovery.filter_cursor,
                key,
            ) {
                lemma_field(
                    before.discovery.filter,
                    before.discovery.filter_cursor,
                    after.discovery.filter,
                    after.discovery.filter_cursor,
                    key,
                );
            }
        },
        Route::WorkspaceSearch => {
            if field_edited(
                before.search.query,
                before.search.query_cursor,
                after.search.query,
                after.search.query_cursor,
                key,
            ) {
                lemma_field(
                    before.search.query,
                    before.search.query_cursor,
                    after.search.query,
                    after.search.query_cursor,
                    key,
                );
            }
        },
        _ => {},
    }
}

#[verifier::spinoff_prover]
#[verifier::rlimit(60)]
proof fn lemma_other_carets(before: App, after: App, effect: EffectView, key: KeyEvent)
    requires
        !to_an_input(route(before, key)),
        all_carets_ok(before),
        key_handled(before, after, effect, key),
        byte_len(before.discovery.query@) <= usize::MAX,
        byte_len(before.discovery.filter@) <= usize::MAX,
    ensures
        !trims_query(before, key) ==> all_carets_ok(after),
        before.modal_return != AppMode::Search && before.help_return_mode != AppMode::Search
            ==> carets_ok(after),
{
    crate::text::lemma_boundary_ends(before.discovery.query@);
    crate::text::lemma_boundary_ends(before.discovery.filter@);
    match route(before, key) {
        Route::Modal => {
            lemma_modal_carets(before, after, key);
        },
        Route::Projects => {
            lemma_project_carets(before, after, effect, key);
            lemma_project_frame(before, after, effect, key);
        },
        Route::Section => {
            lemma_section_carets(before, after, normalized(key));
        },
        Route::Control(command) => {
            lemma_dispatch_carets(before, command);
        },
        Route::Sidebar => {
            if command_of(normalized(key)) is Some {
                lemma_dispatch_carets(before, command_of(normalized(key))->0);
            }
        },
        Route::PaperDetail => {
            lemma_dispatch_carets(before, Command::ToggleHelp);
            lemma_dispatch_carets(before, Command::Back);
        },
        _ => {},
    }
}

#[verifier::spinoff_prover]
#[verifier::rlimit(60)]
proof fn lemma_section_carets(before: App, after: App, key: KeyEvent)
    requires
        all_carets_ok(before),
        section_after(before, after, key),
        before.mode != AppMode::Search,
        byte_len(before.discovery.filter@) <= usize::MAX,
    ensures
        !(section_route(before, key) == SectionRoute::SearchAgain && trimmed(
            before.discovery.query@,
        ) != before.discovery.query@) ==> all_carets_ok(after),
        before.help_return_mode != AppMode::Search ==> carets_ok(after),
{
    crate::text::lemma_boundary_ends(before.discovery.filter@);
    let route = section_route(before, key);
    assert(section_route(before, key) == route);
    match route {
        SectionRoute::Run(command) => {
            lemma_dispatch_carets(past_papers(before, key), command);
        },
        _ => {},
    }
}

/// Only what has no part in the carets differs.
spec fn same_carets(a: App, b: App) -> bool {
    &&& a.palette == b.palette
    &&& a.search.query == b.search.query
    &&& a.search.query_cursor == b.search.query_cursor
    &&& a.terminal == b.terminal
    &&& a.discovery.query == b.discovery.query
    &&& a.discovery.query_cursor == b.discovery.query_cursor
    &&& a.discovery.filter == b.discovery.filter
    &&& a.discovery.filter_cursor == b.discovery.filter_cursor
    &&& a.project == b.project
    &&& a.notes.editor == b.notes.editor
    &&& a.prompt == b.prompt
}

proof fn lemma_selected_carets(app: App, k: usize)
    ensures
        same_carets(with_selected(app, k), app),
        with_selected(app, k).mode == app.mode,
{
}

proof fn lemma_dispatch_carets(app: App, command: Command)
    requires
        app.mode != AppMode::Search,
    ensures
        same_carets(dispatched(app, command), app),
        app.help_return_mode != AppMode::Search ==> dispatched(app, command).mode
            != AppMode::Search,
{
    lemma_selected_carets(app, row_above(section_selected(app)));
    lemma_selected_carets(app, row_below(section_selected(app), section_len(app)));
}

proof fn lemma_project_frame(before: App, after: App, effect: EffectView, key: KeyEvent)
    requires
        all_carets_ok(before),
        projects_after(before, after, effect, key),
        before.mode != AppMode::Search,
    ensures
        after.palette == before.palette,
        after.search == before.search,
        after.terminal == before.terminal,
        after.discovery == before.discovery,
        after.notes == before.notes,
        after.prompt == before.prompt,
        after.mode != AppMode::Search,
{
}

proof fn lemma_modal_carets(before: App, after: App, key: KeyEvent)
    requires
        all_carets_ok(before),
        before.mode == AppMode::Prompt ==> prompt_after(before, after, key),
        before.mode != AppMode::Prompt ==> note_after(before, after, key),
    ensures
        after.notes.editor matches Some(note) ==> is_boundary(note.body@, note.cursor as int),
        after.prompt matches Some(prompt) ==> is_boundary(prompt.value@, prompt.cursor as int),
{
    if before.mode == AppMode::Prompt {
        if let (Some(p), Some(q)) = (before.prompt, after.prompt) {
            if key.code != KeyCode::Up && key.code != KeyCode::Down {
                lemma_field(p.value, p.cursor, q.value, q.cursor, key);
            }
        }
    } else {
        if let (Some(n), Some(m)) = (before.notes.editor, after.notes.editor) {
            let c = caret_of(n.body@, n.cursor as int);
            let d = note_edited(c, key);
            crate::text::lemma_boundary(n.body@, n.cursor as int);
            crate::edit::lemma_edited_valid(c, key);
            crate::text::lemma_index_at(d.text, d.at);
        }
    }
}

/// Deals with a key.
pub fn handle_key(app: &mut App, key: KeyEvent) -> (r: KeyEffect)
    requires
        carets_ok(*old(app)),
    ensures
        key_handled(*old(app), *final(app), r@, key),
{
    match route_key(app, key) {
        Route::Pdf => handle_pdf_key(key),
        Route::OpenTerminal => {
            open_terminal(app);
            KeyEffect::Nothing
        },
        Route::Help => {
            app.dispatch(Command::ToggleHelp);
            KeyEffect::Nothing
        },
        Route::ProjectName => effect_of(handle_name_key(app, key)),
        Route::Palette => {
            handle_palette_key(app, key);
            KeyEffect::Nothing
        },
        Route::Terminal => handle_terminal_key(app, key),
        Route::HelpText => {
            handle_help_key(app, key);
            KeyEffect::Nothing
        },
        Route::Modal => effect_of(handle_modal_key(app, key)),
        Route::ConfirmDelete => effect_of(handle_confirm_delete_key(app, key)),
        Route::Search => effect_of(handle_search_key(app, key)),
        Route::DiscoverFilter => effect_of(handle_discover_filter_key(app, key)),
        Route::WorkspaceSearch => effect_of(handle_workspace_search_key(app, key)),
        Route::NextResults => {
            app.discovery.next_page();
            KeyEffect::Nothing
        },
        Route::PreviousResults => {
            app.discovery.previous_page();
            KeyEffect::Nothing
        },
        Route::TogglePalette => {
            app.dispatch(Command::TogglePalette);
            KeyEffect::Nothing
        },
        Route::OpenSearch => {
            app.page = Page::Discover;
            app.sidebar_index = 1;
            app.content_focused = true;
            app.mode = AppMode::Search;
            app.discovery.query_cursor = text_len(app.discovery.query.as_str());
            KeyEffect::Nothing
        },
        Route::Projects => handle_projects_key(app, key),
        Route::LeaveResults => {
            app.content_focused = false;
            KeyEffect::Nothing
        },
        Route::Control(command) => {
            app.dispatch(command);
            KeyEffect::Nothing
        },
        Route::PaperDetail => {
            let code = normalize_panel_navigation(key);
            effect_of(handle_paper_detail_key(app, code))
        },
        Route::Sidebar => {
            let key = normalize_panel_navigation(key);
            if app.page == Page::Settings && matches!(
                key.code,
                KeyCode::Right | KeyCode::Char('l') | KeyCode::Enter
            ) {
                app.content_focused = true;
            } else {
                match navigation_command(key) {
                    Some(command) => app.dispatch(command),
                    None => {},
                }
            }
            KeyEffect::Nothing
        },
        Route::Section => effect_of(handle_section_key(app, normalize_panel_navigation(key))),
    }
}

/// While a text is asked for, a letter goes into it at the caret, whatever the letter
/// means elsewhere, and nothing is done.
pub proof fn lemma_letters_are_typed(
    before: App,
    after: App,
    effect: EffectView,
    key: KeyEvent,
    a: Seq<char>,
    b: Seq<char>,
    ch: char,
)
    requires
        key_handled(before, after, effect, key),
        key.code == KeyCode::Char(ch),
        !key.modifiers.control,
    ensures
        before.mode == AppMode::Search && before.discovery.query@ == a + b
            && before.discovery.query_cursor == byte_len(a) ==> after.discovery.query@ == a.push(ch)
            + b && after.mode == before.mode && effect == EffectView::Nothing,
        before.mode == AppMode::WorkspaceSearch && ch != '>' && before.search.query@ == a + b
            && before.search.query_cursor == byte_len(a) ==> after.search.query@ == a.push(ch) + b
            && after.mode == before.mode && effect == EffectView::Nothing,
        before.mode == AppMode::DiscoverFilter && ch != '>' && before.discovery.results@.len() > 0
            && before.discovery.filter@ == a + b && before.discovery.filter_cursor == byte_len(a)
            ==> after.discovery.filter@ == a.push(ch) + b && after.discovery.page == 0
            && after.discovery.selected == 0 && effect == EffectView::Nothing,
        before.mode == AppMode::TerminalCommand && before.terminal.command@ == a + b
            && before.terminal.cursor == byte_len(a) ==> after.terminal.command@ == a.push(ch) + b
            && effect == EffectView::Nothing,
        naming(before.mode) && before.project.rename_input@ == a + b
            && before.project.rename_cursor == byte_len(a) ==> after.project.rename_input@
            == a.push(ch) + b && after.mode == before.mode && effect == EffectView::Nothing,
        before.mode == AppMode::CommandPalette && before.palette.query@ == a + b
            && before.palette.query_cursor == byte_len(a) ==> after.palette.query@ == a.push(ch) + b
            && after.mode == before.mode && effect == EffectView::Nothing,
{
    crate::field::lemma_caret_between(a, b);
    assert((a + b).insert(a.len() as int, ch) =~= a.push(ch) + b);
}

/// In an open document the arrows scroll by a row as long as they are held. Pages are
/// turned and the document is closed when a key is pressed, and not when it is let go.
pub proof fn lemma_document_takes_its_keys(
    before: App,
    after: App,
    effect: EffectView,
    key: KeyEvent,
)
    requires
        key_handled(before, after, effect, key),
        before.mode == AppMode::PdfView,
    ensures
        after == before,
        key.kind == KeyEventKind::Release ==> effect == EffectView::Nothing,
        key.code == KeyCode::Down && key.kind != KeyEventKind::Release ==> effect
            == EffectView::ScrollPdf(1),
        key.code == KeyCode::Up && key.kind != KeyEventKind::Release ==> effect
            == EffectView::ScrollPdf(-1i64),
        key.code == KeyCode::PageDown ==> effect == if key.kind == KeyEventKind::Press {
            EffectView::PdfPageDown
        } else {
            EffectView::Nothing
        },
        key.code == KeyCode::PageUp ==> effect == if key.kind == KeyEventKind::Press {
            EffectView::PdfPageUp
        } else {
            EffectView::Nothing
        },
        effect == EffectView::Act(ActionView::ClosePdf) <==> (key.code == KeyCode::Esc || key.code
            == KeyCode::Char('q')) && key.kind == KeyEventKind::Press,
{
}

/// Nothing is deleted unless the user agrees, and then what was asked about.
pub proof fn lemma_deletion_needs_agreement(
    before: App,
    after: App,
    effect: EffectView,
    key: KeyEvent,
    id: i64,
)
    requires
        key_handled(before, after, effect, key),
        before.mode == AppMode::ConfirmDelete,
        key.code != KeyCode::Char('?'),
        !key.modifiers.control,
        before.delete_confirmation matches Some(crate::model::DeletionTarget::Paper { id: i, .. })
            && i == id,
    ensures
        ({
            let agreed = key.code == KeyCode::Enter || key.code == KeyCode::Char('y') || key.code
                == KeyCode::Char('Y');
            let refused = key.code == KeyCode::Esc || key.code == KeyCode::Char('n') || key.code
                == KeyCode::Char('N') || key.code == KeyCode::Char('q');
            &&& agreed ==> (effect matches EffectView::Act(ActionView::DeletePaper {
                paper_id,
                ..
            }) && paper_id == id)
            &&& !agreed ==> effect == EffectView::Nothing
            &&& agreed || refused ==> after.delete_confirmation is None && after.mode
                == AppMode::Normal
            &&& !agreed && !refused ==> after == before
        }),
{
}

/// A name that was entered is handed over without the white space around it, to what it
/// was asked for.
pub proof fn lemma_entered_name_is_handed_over(
    before: App,
    after: App,
    effect: EffectView,
    key: KeyEvent,
    a: Seq<char>,
    name: Seq<char>,
    b: Seq<char>,
)
    requires
        key_handled(before, after, effect, key),
        key.code == KeyCode::Enter,
        !key.modifiers.control,
        naming(before.mode),
        before.project.rename_input@ == a + name + b,
        forall|i: int| 0 <= i < a.len() ==> whitespace(#[trigger] a[i]),
        forall|i: int| 0 <= i < b.len() ==> whitespace(#[trigger] b[i]),
        name.len() > 0,
        !whitespace(name[0]),
        !whitespace(name.last()),
    ensures
        after.mode == AppMode::Normal,
        before.mode == AppMode::ProjectCreate ==> effect == EffectView::Act(
            ActionView::CreateProject(name),
        ),
        before.mode == AppMode::ProjectFileCreate ==> effect == EffectView::Act(
            ActionView::CreateProjectFile(name),
        ),
        before.mode == AppMode::ProjectEntryRename && before.project.entry_rename_path is Some
            ==> effect == EffectView::Act(
            ActionView::RenameProjectEntry {
                path: before.project.entry_rename_path->0@,
                name,
            },
        ),
        before.mode == AppMode::ProjectRename && before.project.active is Some ==> effect
            == EffectView::Act(
            ActionView::RenameProject { project: before.project.active->0@, name },
        ),
        before.mode == AppMode::ProjectRename && before.project.active is None
            && before.project.selected < before.project.items@.len() ==> effect == EffectView::Act(
            ActionView::RenameProject {
                project: before.project.items@[before.project.selected as int]@,
                name,
            },
        ),
{
    crate::strings::lemma_trimmed_inside(a, name, b);
}

/// `a` puts the selected paper into the reading queue, or takes it out where it waits in
/// it already, and `u` marks it as unread.
pub proof fn lemma_queue_takes_and_gives(app: App, key: KeyEvent, id: i64)
    requires
        local_paper_id(app) == Some(id),
    ensures
        key.code == KeyCode::Char('a') ==> section_action(app, key) == Some(
            if exists|i: int|
                0 <= i < app.queue.papers@.len() && (#[trigger] app.queue.papers@[i]).id == id {
                ActionView::RemoveFromQueue(id)
            } else {
                ActionView::AddToQueue(id)
            },
        ),
        key.code == KeyCode::Char('u') ==> section_action(app, key) == Some(
            ActionView::MarkUnread(id),
        ),
{
}

/// On the pages of online papers `d` downloads the selected one, `c` copies its citation,
/// and the keys that open a row show it.
pub proof fn lemma_online_papers_take_their_keys(app: App, key: KeyEvent)
    requires
        app.page == Page::Dashboard || app.page == Page::Discover,
        remote_paper(app) is Some,
    ensures
        key.code == KeyCode::Char('d') ==> section_action(app, key) == Some(
            ActionView::Download(remote_paper(app)->0@),
        ),
        key.code == KeyCode::Char('c') ==> section_action(app, key) == Some(
            ActionView::CopyCitation(crate::action::TargetView::Remote(remote_paper(app)->0@)),
        ),
        key.code == KeyCode::Enter ==> section_action(app, key) == Some(
            ActionView::OpenPaper(remote_paper(app)->0@),
        ),
{
}

/// The terminal opens from everywhere but a document, empty and in the folder of the open
/// project.
pub proof fn lemma_terminal_opens_in_the_project(
    before: App,
    after: App,
    effect: EffectView,
    key: KeyEvent,
)
    requires
        key_handled(before, after, effect, key),
        key.code == KeyCode::Char('t'),
        key.modifiers.control,
        before.mode != AppMode::PdfView,
    ensures
        after.mode == AppMode::TerminalCommand,
        after.terminal.command@.len() == 0,
        after.terminal.output@.len() == 0,
        before.project.active is Some ==> after.terminal.directory is Some
            && after.terminal.directory->0@ == before.project.active->0.path@,
        before.project.active is None ==> after.terminal.directory is None,
        after.project == before.project && after.page == before.page,
        effect == EffectView::Nothing,
{
}

} // verus!
