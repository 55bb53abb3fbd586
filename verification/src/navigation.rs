//! Commands that mean the same in every section.

use crate::keys::{KeyCode, KeyEvent};
use crate::model::{App, AppMode, Command, Page, PAGE_COUNT};
use crate::rows::{
    count_marked, filtered_authors, filtered_bookmarks, filtered_downloads, filtered_papers,
    page_of, positions, shown_authors, shown_bookmarks, shown_downloads, shown_papers,
};
use crate::text::{max, min};
use vstd::prelude::*;

verus! {

/// The row below `selected` in a list of `len` rows.
pub open spec fn row_below(selected: usize, len: int) -> usize {
    min(selected + 1, max(len - 1, 0)) as usize
}

/// The row above `selected`.
pub open spec fn row_above(selected: usize) -> usize {
    max(selected - 1, 0) as usize
}

/// The row below `selected` in a list of `len` rows.
pub fn select_below(selected: usize, len: usize) -> (r: usize)
    ensures
        r == row_below(selected, len as int),
{
    let last: usize = if len == 0 {
        0
    } else {
        len - 1
    };
    if selected < last {
        selected + 1
    } else {
        last
    }
}

/// The row above `selected`.
pub fn select_above(selected: usize) -> (r: usize)
    ensures
        r == row_above(selected),
{
    if selected == 0 {
        0
    } else {
        selected - 1
    }
}

/// Number of the rows that the open section shows, where it has a list.
pub open spec fn section_len(app: App) -> int {
    let query = app.search.query@;
    match app.page {
        Page::Dashboard => app.today.papers@.len() as int,
        Page::Discover => app.discovery.page_len(),
        Page::Library => positions(shown_papers(app.library.papers@, query)).len() as int,
        Page::ReadingQueue => positions(shown_papers(app.queue.papers@, query)).len() as int,
        Page::Collections => if app.collections.active is Some {
            positions(shown_papers(app.collections.papers@, query)).len() as int
        } else if query.len() == 0 {
            app.collections.items@.len() as int
        } else {
            app.collections.found@.len() as int
        },
        Page::Bookmarks => positions(shown_bookmarks(app.bookmarks.items@, query)).len() as int,
        Page::Authors => if app.authors.active is Some {
            positions(shown_papers(app.authors.papers@, query)).len() as int
        } else {
            positions(shown_authors(app.authors.items@, query)).len() as int
        },
        Page::Notes => positions(shown_papers(app.notes.papers@, query)).len() as int,
        Page::Downloads => positions(shown_downloads(app.downloads.tasks@, query)).len() as int,
        Page::Credits => app.credits.urls@.len() as int,
        _ => 0,
    }
}

/// The row that is selected in the open section, where it has a list.
pub open spec fn section_selected(app: App) -> usize {
    match app.page {
        Page::Dashboard => app.today.selected,
        Page::Discover => app.discovery.selected,
        Page::Library => app.library.selected,
        Page::ReadingQueue => app.queue.selected,
        Page::Collections => if app.collections.active is Some {
            app.collections.paper_selected
        } else {
            app.collections.selected
        },
        Page::Bookmarks => app.bookmarks.selected,
        Page::Authors => if app.authors.active is Some {
            app.authors.paper_selected
        } else {
            app.authors.selected
        },
        Page::Notes => app.notes.selected,
        Page::Downloads => app.downloads.selected,
        Page::Credits => app.credits.selected,
        _ => 0,
    }
}

/// The same with another row of the open section selected.
pub open spec fn with_selected(app: App, k: usize) -> App {
    match app.page {
        Page::Dashboard => App {
            today: crate::model::TodayState { selected: k, ..app.today },
            ..app
        },
        Page::Discover => App {
            discovery: crate::model::DiscoveryState { selected: k, ..app.discovery },
            ..app
        },
        Page::Library => App {
            library: crate::model::LibraryState { selected: k, ..app.library },
            ..app
        },
        Page::ReadingQueue => App {
            queue: crate::model::QueueState { selected: k, ..app.queue },
            ..app
        },
        Page::Collections => if app.collections.active is Some {
            App {
                collections: crate::model::CollectionsState {
                    paper_selected: k,
                    ..app.collections
                },
                ..app
            }
        } else {
            App {
                collections: crate::model::CollectionsState { selected: k, ..app.collections },
                ..app
            }
        },
        Page::Bookmarks => App {
            bookmarks: crate::model::BookmarksState { selected: k, ..app.bookmarks },
            ..app
        },
        Page::Authors => if app.authors.active is Some {
            App {
                authors: crate::model::AuthorsState { paper_selected: k, ..app.authors },
                ..app
            }
        } else {
            App { authors: crate::model::AuthorsState { selected: k, ..app.authors }, ..app }
        },
        Page::Notes => App { notes: crate::model::NotesState { selected: k, ..app.notes }, ..app },
        Page::Downloads => App {
            downloads: crate::model::DownloadsState { selected: k, ..app.downloads },
            ..app
        },
        Page::Credits => App {
            credits: crate::model::CreditsState { selected: k, ..app.credits },
            ..app
        },
        _ => app,
    }
}

/// The same with another mode.
pub open spec fn with_mode(app: App, mode: AppMode) -> App {
    App { mode, ..app }
}

/// Whether a section has a local search.
pub open spec fn searchable(page: Page) -> bool {
    page == Page::Library || page == Page::ReadingQueue || page == Page::Collections || page
        == Page::Bookmarks || page == Page::Authors || page == Page::Notes || page
        == Page::Downloads
}

/// What a command does.
pub open spec fn dispatched(app: App, command: Command) -> App {
    match command {
        Command::Quit => App { should_quit: true, ..app },
        Command::ToggleHelp => if app.mode == AppMode::Help {
            with_mode(app, app.help_return_mode)
        } else {
            App { mode: AppMode::Help, help_return_mode: app.mode, help_scroll: 0, ..app }
        },
        Command::TogglePalette => if app.mode == AppMode::CommandPalette {
            with_mode(app, AppMode::Normal)
        } else {
            with_mode(app, AppMode::CommandPalette)
        },
        Command::ToggleWorkspaceSearch => if searchable(app.page) {
            App {
                mode: AppMode::WorkspaceSearch,
                search: crate::model::WorkspaceSearchState {
                    active: app.search.active.with(app.page, true),
                    ..app.search
                },
                ..app
            }
        } else {
            app
        },
        Command::Back => if app.mode == AppMode::PaperDetail {
            with_mode(app, AppMode::Normal)
        } else {
            App { content_focused: false, ..app }
        },
        Command::Open => if app.content_focused {
            if app.page == Page::Dashboard && app.today.selected < app.today.papers@.len() {
                App { mode: AppMode::PaperDetail, paper_detail_scroll: 0, ..app }
            } else {
                app
            }
        } else if app.sidebar_index < PAGE_COUNT {
            let page = page_of(app.sidebar_index as int);
            App {
                page,
                content_focused: true,
                mode: if app.search.active.has(page) {
                    AppMode::WorkspaceSearch
                } else {
                    AppMode::Normal
                },
                ..app
            }
        } else {
            app
        },
        Command::MoveUp => if app.content_focused {
            with_selected(app, row_above(section_selected(app)))
        } else {
            App { sidebar_index: row_above(app.sidebar_index), ..app }
        },
        Command::MoveDown => if app.content_focused {
            with_selected(app, row_below(section_selected(app), section_len(app)))
        } else {
            App { sidebar_index: row_below(app.sidebar_index, PAGE_COUNT as int), ..app }
        },
    }
}

/// Help opens over any view and gives it back when it is closed.
pub proof fn lemma_help_round_trip(app: App)
    requires
        app.mode != AppMode::Help,
    ensures
        ({
            let opened = dispatched(app, Command::ToggleHelp);
            let closed = dispatched(opened, Command::ToggleHelp);
            &&& opened.mode == AppMode::Help
            &&& opened.page == app.page
            &&& closed == App { help_return_mode: app.mode, help_scroll: 0, ..app }
        }),
{
}

/// Leaving a section for the sidebar and opening it again shows the same rows
/// with the same row selected.
pub proof fn lemma_back_then_open(app: App)
    requires
        app.content_focused,
        app.mode == AppMode::Normal,
        app.sidebar_index == crate::model::page_index(app.page),
        !app.search.active.has(app.page),
    ensures
        dispatched(dispatched(app, Command::Back), Command::Open) == app,
{
    crate::rows::lemma_page_of(app.page);
}

fn section_rows(app: &App) -> (r: usize)
    ensures
        r == section_len(*app),
{
    let query: &str = app.search.query.as_str();
    match app.page {
        Page::Dashboard => app.today.papers.len(),
        Page::Discover => app.discovery.visible_page_len(),
        Page::Library => count_marked(&filtered_papers(&app.library.papers, query)),
        Page::ReadingQueue => count_marked(&filtered_papers(&app.queue.papers, query)),
        Page::Collections => {
            if app.collections.active.is_some() {
                count_marked(&filtered_papers(&app.collections.papers, query))
            } else if query.is_empty() {
                app.collections.items.len()
            } else {
                app.collections.found.len()
            }
        },
        Page::Bookmarks => count_marked(&filtered_bookmarks(&app.bookmarks.items, query)),
        Page::Authors => {
            if app.authors.active.is_some() {
                count_marked(&filtered_papers(&app.authors.papers, query))
            } else {
                count_marked(&filtered_authors(&app.authors.items, query))
            }
        },
        Page::Notes => count_marked(&filtered_papers(&app.notes.papers, query)),
        Page::Downloads => count_marked(&filtered_downloads(&app.downloads.tasks, query)),
        Page::Credits => app.credits.urls.len(),
        _ => 0,
    }
}

fn section_row(app: &App) -> (r: usize)
    ensures
        r == section_selected(*app),
{
    match app.page {
        Page::Dashboard => app.today.selected,
        Page::Discover => app.discovery.selected,
        Page::Library => app.library.selected,
        Page::ReadingQueue => app.queue.selected,
        Page::Collections => {
            if app.collections.active.is_some() {
                app.collections.paper_selected
            } else {
                app.collections.selected
            }
        },
        Page::Bookmarks => app.bookmarks.selected,
        Page::Authors => {
            if app.authors.active.is_some() {
                app.authors.paper_selected
            } else {
                app.authors.selected
            }
        },
        Page::Notes => app.notes.selected,
        Page::Downloads => app.downloads.selected,
        Page::Credits => app.credits.selected,
        _ => 0,
    }
}

/// Selects a row of the open section.
pub fn select_row(app: &mut App, k: usize)
    ensures
        *final(app) == with_selected(*old(app), k),
{
    match app.page {
        Page::Dashboard => app.today.selected = k,
        Page::Discover => app.discovery.selected = k,
        Page::Library => app.library.selected = k,
        Page::ReadingQueue => app.queue.selected = k,
        Page::Collections => {
            if app.collections.active.is_some() {
                app.collections.paper_selected = k;
            } else {
                app.collections.selected = k;
            }
        },
        Page::Bookmarks => app.bookmarks.selected = k,
        Page::Authors => {
            if app.authors.active.is_some() {
                app.authors.paper_selected = k;
            } else {
                app.authors.selected = k;
            }
        },
        Page::Notes => app.notes.selected = k,
        Page::Downloads => app.downloads.selected = k,
        Page::Credits => app.credits.selected = k,
        _ => {},
    }
}

impl App {
    /// Carries out a command.
    pub fn dispatch(&mut self, command: Command)
        ensures
            *final(self) == dispatched(*old(self), command),
    {
        match command {
            Command::Quit => self.should_quit = true,
            Command::ToggleHelp => {
                if self.mode == AppMode::Help {
                    self.mode = self.help_return_mode;
                } else {
                    self.help_return_mode = self.mode;
                    self.mode = AppMode::Help;
                    self.help_scroll = 0;
                }
            },
            Command::TogglePalette => {
                if self.mode == AppMode::CommandPalette {
                    self.mode = AppMode::Normal;
                } else {
                    self.mode = AppMode::CommandPalette;
                }
            },
            Command::ToggleWorkspaceSearch => {
                if matches!(
                    self.page,
                    Page::Library | Page::ReadingQueue | Page::Collections | Page::Bookmarks
                        | Page::Authors | Page::Notes | Page::Downloads
                ) {
                    self.mode = AppMode::WorkspaceSearch;
                    self.search.active.set(self.page, true);
                }
            },
            Command::Back => {
                if self.mode == AppMode::PaperDetail {
                    self.mode = AppMode::Normal;
                } else {
                    self.content_focused = false;
                }
            },
            Command::Open => {
                if self.content_focused {
                    if self.page == Page::Dashboard && self.today.selected
                        < self.today.papers.len() {
                        self.mode = AppMode::PaperDetail;
                        self.paper_detail_scroll = 0;
                    }
                } else {
                    match Page::at(self.sidebar_index) {
                        Some(page) => {
                            proof {
                                crate::rows::lemma_page_of(page);
                            }
                            self.page = page;
                            self.content_focused = true;
                            self.mode = if self.search.active.contains(page) {
                                AppMode::WorkspaceSearch
                            } else {
                                AppMode::Normal
                            };
                        },
                        None => {},
                    }
                }
            },
            Command::MoveUp => {
                if self.content_focused {
                    let k: usize = select_above(section_row(self));
                    select_row(self, k);
                } else {
                    self.sidebar_index = select_above(self.sidebar_index);
                }
            },
            Command::MoveDown => {
                if self.content_focused {
                    let k: usize = select_below(section_row(self), section_rows(self));
                    select_row(self, k);
                } else {
                    self.sidebar_index = select_below(self.sidebar_index, PAGE_COUNT);
                }
            },
        }
    }
}

/// The command that a key stands for outside of text input.
pub open spec fn command_of(key: KeyEvent) -> Option<Command> {
    match key.code {
        KeyCode::Char(c) => if c == 'b' && key.modifiers.control {
            Some(Command::TogglePalette)
        } else if c == '>' {
            Some(Command::ToggleWorkspaceSearch)
        } else if c == 'j' {
            Some(Command::MoveDown)
        } else if c == 'k' {
            Some(Command::MoveUp)
        } else if c == 'l' {
            Some(Command::Open)
        } else if c == 'h' {
            Some(Command::Back)
        } else if c == '?' {
            Some(Command::ToggleHelp)
        } else if c == 'q' {
            Some(Command::Quit)
        } else {
            None
        },
        KeyCode::Down => Some(Command::MoveDown),
        KeyCode::Up => Some(Command::MoveUp),
        KeyCode::Enter | KeyCode::Right => Some(Command::Open),
        KeyCode::Left => Some(Command::Back),
        _ => None,
    }
}

/// The command that a key stands for outside of text input.
pub fn navigation_command(key: KeyEvent) -> (r: Option<Command>)
    ensures
        r == command_of(key),
{
    match key.code {
        KeyCode::Char('b') => {
            if key.modifiers.control {
                Some(Command::TogglePalette)
            } else {
                None
            }
        },
        KeyCode::Char('>') => Some(Command::ToggleWorkspaceSearch),
        KeyCode::Char('j') | KeyCode::Down => Some(Command::MoveDown),
        KeyCode::Char('k') | KeyCode::Up => Some(Command::MoveUp),
        KeyCode::Enter | KeyCode::Right | KeyCode::Char('l') => Some(Command::Open),
        KeyCode::Left | KeyCode::Char('h') => Some(Command::Back),
        KeyCode::Char('?') => Some(Command::ToggleHelp),
        KeyCode::Char('q') => Some(Command::Quit),
        _ => None,
    }
}

/// Arrow keys as the letters that mean the same in a list.
pub open spec fn normalized(key: KeyEvent) -> KeyEvent {
    KeyEvent {
        code: match key.code {
            KeyCode::Left => KeyCode::Char('h'),
            KeyCode::Right => KeyCode::Char('l'),
            code => code,
        },
        ..key
    }
}

/// Arrow keys as the letters that mean the same in a list.
pub fn normalize_panel_navigation(key: KeyEvent) -> (r: KeyEvent)
    ensures
        r == normalized(key),
{
    let code: KeyCode = match key.code {
        KeyCode::Left => KeyCode::Char('h'),
        KeyCode::Right => KeyCode::Char('l'),
        code => code,
    };
    KeyEvent { code, modifiers: key.modifiers, kind: key.kind }
}

/// Going down selects the row below while there is one, and going up the row above. The
/// one takes back the other, and neither leaves the list.
pub proof fn lemma_rows_are_gone_through(app: App)
    requires
        app.content_focused,
        section_selected(app) < section_len(app),
        section_len(app) <= usize::MAX,
    ensures
        ({
            let k = section_selected(app);
            let down = dispatched(app, Command::MoveDown);
            let up = dispatched(app, Command::MoveUp);
            &&& down.page == app.page && section_len(down) == section_len(app)
            &&& section_selected(down) == if k + 1 < section_len(app) {
                k + 1
            } else {
                k as int
            }
            &&& section_selected(up) == if k > 0 {
                k - 1
            } else {
                0
            }
            &&& k + 1 < section_len(app) ==> dispatched(down, Command::MoveUp) == app
            &&& k > 0 ==> dispatched(up, Command::MoveDown) == app
            &&& down.mode == app.mode && down.content_focused
        }),
{
    let k = section_selected(app);
    let below = row_below(k, section_len(app));
    let above = row_above(k);
    lemma_row_selected(app, below);
    lemma_row_selected(app, above);
    assert(dispatched(app, Command::MoveDown) == with_selected(app, below));
    assert(dispatched(app, Command::MoveUp) == with_selected(app, above));
    let down = with_selected(app, below);
    let up = with_selected(app, above);
    assert(dispatched(down, Command::MoveUp) == with_selected(down, row_above(below)));
    assert(dispatched(up, Command::MoveDown) == with_selected(
        up,
        row_below(above, section_len(app)),
    ));
}

/// A row that is selected is the selected one, and nothing else changes.
pub proof fn lemma_row_selected(app: App, k: usize)
    requires
        section_len(app) > 0,
    ensures
        section_selected(with_selected(app, k)) == k,
        section_len(with_selected(app, k)) == section_len(app),
        with_selected(app, k).page == app.page,
        with_selected(app, k).mode == app.mode,
        with_selected(app, k).content_focused == app.content_focused,
        with_selected(with_selected(app, k), section_selected(app)) == app,
{
}

/// In the sidebar the sections are gone through in the same way, and the one that is
/// selected is opened.
pub proof fn lemma_sections_are_gone_through(app: App, page: Page)
    requires
        !app.content_focused,
        app.sidebar_index == crate::model::page_index(page),
        app.sidebar_index < PAGE_COUNT,
    ensures
        ({
            let down = dispatched(app, Command::MoveDown);
            let open = dispatched(app, Command::Open);
            &&& down.page == app.page && !down.content_focused
            &&& down.sidebar_index == if app.sidebar_index + 1 < PAGE_COUNT {
                app.sidebar_index + 1
            } else {
                app.sidebar_index as int
            }
            &&& app.sidebar_index + 1 < PAGE_COUNT ==> dispatched(down, Command::MoveUp) == app
            &&& open.content_focused
            &&& open.page == page
            &&& open.sidebar_index == app.sidebar_index
            &&& open.library == app.library && open.search == app.search
        }),
{
    crate::rows::lemma_page_of(page);
}

} // verus!
