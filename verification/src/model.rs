//! The values that the workspaces show and the state they keep.

use crate::strings::{copy_texts, opt_text, texts};
use crate::text::is_boundary;
use vstd::prelude::*;

verus! {

/// A section of the program, in the order of the sidebar.
#[derive(Clone, Copy, Debug, PartialEq, Eq, Structural)]
pub enum Page {
    Dashboard,
    Discover,
    Library,
    ReadingQueue,
    Collections,
    Bookmarks,
    Authors,
    Notes,
    Downloads,
    Projects,
    History,
    Statistics,
    Settings,
    Credits,
}

/// Number of sections.
pub const PAGE_COUNT: usize = 14;

/// Position of a section in the sidebar.
pub open spec fn page_index(page: Page) -> int {
    match page {
        Page::Dashboard => 0,
        Page::Discover => 1,
        Page::Library => 2,
        Page::ReadingQueue => 3,
        Page::Collections => 4,
        Page::Bookmarks => 5,
        Page::Authors => 6,
        Page::Notes => 7,
        Page::Downloads => 8,
        Page::Projects => 9,
        Page::History => 10,
        Page::Statistics => 11,
        Page::Settings => 12,
        Page::Credits => 13,
    }
}

impl Page {
    /// Position of the section in the sidebar.
    pub fn index(self) -> (r: usize)
        ensures
            r == page_index(self),
            r < PAGE_COUNT,
    {
        match self {
            Page::Dashboard => 0,
            Page::Discover => 1,
            Page::Library => 2,
            Page::ReadingQueue => 3,
            Page::Collections => 4,
            Page::Bookmarks => 5,
            Page::Authors => 6,
            Page::Notes => 7,
            Page::Downloads => 8,
            Page::Projects => 9,
            Page::History => 10,
            Page::Statistics => 11,
            Page::Settings => 12,
            Page::Credits => 13,
        }
    }

    /// The section at a position of the sidebar.
    pub fn at(index: usize) -> (r: Option<Page>)
        ensures
            r is Some <==> index < PAGE_COUNT,
            r matches Some(page) ==> page_index(page) == index,
    {
        match index {
            0 => Some(Page::Dashboard),
            1 => Some(Page::Discover),
            2 => Some(Page::Library),
            3 => Some(Page::ReadingQueue),
            4 => Some(Page::Collections),
            5 => Some(Page::Bookmarks),
            6 => Some(Page::Authors),
            7 => Some(Page::Notes),
            8 => Some(Page::Downloads),
            9 => Some(Page::Projects),
            10 => Some(Page::History),
            11 => Some(Page::Statistics),
            12 => Some(Page::Settings),
            13 => Some(Page::Credits),
            _ => None,
        }
    }
}

/// What the keyboard acts on.
#[derive(Clone, Copy, Debug, PartialEq, Eq, Structural)]
pub enum AppMode {
    Normal,
    Search,
    DiscoverFilter,
    WorkspaceSearch,
    CommandPalette,
    TerminalCommand,
    Help,
    PaperDetail,
    NoteEdit,
    Prompt,
    ConfirmDelete,
    PdfView,
    ProjectCreate,
    ProjectRename,
    ProjectFileCreate,
    ProjectEntryRename,
}

/// The parts of the projects workspace.
#[derive(Clone, Copy, Debug, PartialEq, Eq, Structural)]
pub enum ProjectPane {
    ProjectList,
    FileTree,
    Editor,
    Preview,
    Build,
}

/// Commands that mean the same in every section.
#[derive(Clone, Copy, Debug, PartialEq, Eq, Structural)]
pub enum Command {
    MoveUp,
    MoveDown,
    Open,
    Back,
    ToggleHelp,
    TogglePalette,
    ToggleWorkspaceSearch,
    Quit,
}

/// A paper that an online catalogue describes. Times are in seconds.
#[derive(Debug)]
pub struct RemotePaper {
    pub id: String,
    pub title: String,
    pub authors: Vec<String>,
    pub abstract_text: String,
    pub published: i64,
    pub updated: i64,
    pub categories: Vec<String>,
    pub pdf_url: Option<String>,
    pub doi: Option<String>,
    pub journal_ref: Option<String>,
}

/// The texts and times of a [`RemotePaper`].
pub struct RemotePaperView {
    pub id: Seq<char>,
    pub title: Seq<char>,
    pub authors: Seq<Seq<char>>,
    pub abstract_text: Seq<char>,
    pub published: i64,
    pub updated: i64,
    pub categories: Seq<Seq<char>>,
    pub pdf_url: Option<Seq<char>>,
    pub doi: Option<Seq<char>>,
    pub journal_ref: Option<Seq<char>>,
}

impl View for RemotePaper {
    type V = RemotePaperView;

    open spec fn view(&self) -> RemotePaperView {
        RemotePaperView {
            id: self.id@,
            title: self.title@,
            authors: texts(self.authors@),
            abstract_text: self.abstract_text@,
            published: self.published,
            updated: self.updated,
            categories: texts(self.categories@),
            pdf_url: opt_text(self.pdf_url),
            doi: opt_text(self.doi),
            journal_ref: opt_text(self.journal_ref),
        }
    }
}

/// A copy of a text that may be missing.
pub fn copy_opt(s: &Option<String>) -> (r: Option<String>)
    ensures
        r == *s,
{
    match s {
        Some(t) => Some(t.clone()),
        None => None,
    }
}

impl RemotePaper {
    /// A copy of the paper.
    pub fn copy(&self) -> (r: RemotePaper)
        ensures
            r@ == self@,
    {
        RemotePaper {
            id: self.id.clone(),
            title: self.title.clone(),
            authors: copy_texts(&self.authors),
            abstract_text: self.abstract_text.clone(),
            published: self.published,
            updated: self.updated,
            categories: copy_texts(&self.categories),
            pdf_url: copy_opt(&self.pdf_url),
            doi: copy_opt(&self.doi),
            journal_ref: copy_opt(&self.journal_ref),
        }
    }
}

/// The papers of a list.
pub open spec fn papers_view(v: Seq<RemotePaper>) -> Seq<RemotePaperView> {
    Seq::new(v.len(), |i: int| v[i]@)
}

/// A copy of a list of papers.
pub fn copy_papers(v: &Vec<RemotePaper>) -> (r: Vec<RemotePaper>)
    ensures
        papers_view(r@) == papers_view(v@),
{
    let mut r: Vec<RemotePaper> = Vec::new();
    let mut i: usize = 0;
    while i < v.len()
        invariant
            i <= v@.len(),
            r@.len() == i,
            forall|j: int| 0 <= j < i ==> (#[trigger] r@[j])@ == v@[j]@,
        decreases v@.len() - i,
    {
        r.push(v[i].copy());
        i = i + 1;
    }
    assert(papers_view(r@) =~= papers_view(v@));
    r
}

/// A paper of the local library.
#[derive(Debug)]
pub struct LibraryPaper {
    pub id: i64,
    pub title: String,
    pub authors: String,
    pub doi: Option<String>,
    pub arxiv_id: Option<String>,
    pub pdf_path: Option<String>,
    pub file_size: Option<i64>,
    pub reading_status: String,
    pub is_favorite: bool,
}

impl LibraryPaper {
    /// A copy of the paper.
    pub fn copy(&self) -> (r: LibraryPaper)
        ensures
            r == *self,
    {
        LibraryPaper {
            id: self.id,
            title: self.title.clone(),
            authors: self.authors.clone(),
            doi: copy_opt(&self.doi),
            arxiv_id: copy_opt(&self.arxiv_id),
            pdf_path: copy_opt(&self.pdf_path),
            file_size: self.file_size,
            reading_status: self.reading_status.clone(),
            is_favorite: self.is_favorite,
        }
    }
}

/// A group of papers, mirrored by a folder.
#[derive(Debug)]
pub struct CollectionSummary {
    pub id: i64,
    pub name: String,
    pub paper_count: u64,
    pub folder_path: Option<String>,
}

impl CollectionSummary {
    /// A copy of the group.
    pub fn copy(&self) -> (r: CollectionSummary)
        ensures
            r == *self,
    {
        CollectionSummary {
            id: self.id,
            name: self.name.clone(),
            paper_count: self.paper_count,
            folder_path: copy_opt(&self.folder_path),
        }
    }
}

/// An author of papers in the library.
#[derive(Debug)]
pub struct AuthorSummary {
    pub id: i64,
    pub name: String,
    pub paper_count: u64,
}

/// A paper marked for quick retrieval.
#[derive(Debug)]
pub struct BookmarkSummary {
    pub id: i64,
    pub paper_id: i64,
    pub paper_title: String,
    pub authors: String,
    pub year: Option<String>,
    pub journal: Option<String>,
    pub doi: Option<String>,
    pub pdf_path: String,
    pub page: Option<i64>,
    pub label: Option<String>,
}

/// How far a download has come.
#[derive(Debug)]
pub enum DownloadStatus {
    Starting,
    Running,
    ExtractingMetadata,
    Enriching,
    Renaming,
    Completed,
    Failed(String),
}

impl DownloadStatus {
    /// A copy of the status.
    pub fn copy(&self) -> (r: DownloadStatus)
        ensures
            r == *self,
    {
        match self {
            DownloadStatus::Starting => DownloadStatus::Starting,
            DownloadStatus::Running => DownloadStatus::Running,
            DownloadStatus::ExtractingMetadata => DownloadStatus::ExtractingMetadata,
            DownloadStatus::Enriching => DownloadStatus::Enriching,
            DownloadStatus::Renaming => DownloadStatus::Renaming,
            DownloadStatus::Completed => DownloadStatus::Completed,
            DownloadStatus::Failed(s) => DownloadStatus::Failed(s.clone()),
        }
    }
}

/// A download and what is known of it. Times are in milliseconds.
/// `linked_paper` is the paper of the library whose file is, on disk, the file
/// of the download under another path.
#[derive(Debug)]
pub struct DownloadTask {
    pub id: String,
    pub title: String,
    pub downloaded: u64,
    pub total: Option<u64>,
    pub paper_id: Option<i64>,
    pub linked_paper: Option<i64>,
    pub pdf_path: Option<String>,
    pub status: DownloadStatus,
    pub remote_paper: Option<RemotePaper>,
    pub failed_at: Option<u64>,
}

/// A [`DownloadTask`] by its texts.
#[verifier::ext_equal]
pub struct TaskView {
    pub id: Seq<char>,
    pub title: Seq<char>,
    pub downloaded: u64,
    pub total: Option<u64>,
    pub paper_id: Option<i64>,
    pub linked_paper: Option<i64>,
    pub pdf_path: Option<Seq<char>>,
    pub status: StatusView,
    pub remote_paper: Option<RemotePaperView>,
    pub failed_at: Option<u64>,
}

/// A [`DownloadStatus`] by its text.
#[verifier::ext_equal]
pub enum StatusView {
    Starting,
    Running,
    ExtractingMetadata,
    Enriching,
    Renaming,
    Completed,
    Failed(Seq<char>),
}

impl View for DownloadStatus {
    type V = StatusView;

    open spec fn view(&self) -> StatusView {
        match self {
            DownloadStatus::Starting => StatusView::Starting,
            DownloadStatus::Running => StatusView::Running,
            DownloadStatus::ExtractingMetadata => StatusView::ExtractingMetadata,
            DownloadStatus::Enriching => StatusView::Enriching,
            DownloadStatus::Renaming => StatusView::Renaming,
            DownloadStatus::Completed => StatusView::Completed,
            DownloadStatus::Failed(error) => StatusView::Failed(error@),
        }
    }
}

impl View for DownloadTask {
    type V = TaskView;

    open spec fn view(&self) -> TaskView {
        TaskView {
            id: self.id@,
            title: self.title@,
            downloaded: self.downloaded,
            total: self.total,
            paper_id: self.paper_id,
            linked_paper: self.linked_paper,
            pdf_path: opt_text(self.pdf_path),
            status: self.status@,
            remote_paper: match self.remote_paper {
                Some(paper) => Some(paper@),
                None => None,
            },
            failed_at: self.failed_at,
        }
    }
}

/// The downloads of a list by their texts.
pub open spec fn tasks_view(v: Seq<DownloadTask>) -> Seq<TaskView> {
    Seq::new(v.len(), |i: int| v[i]@)
}

/// A note on a paper, with the caret of its editor.
#[derive(Debug)]
pub struct PaperNote {
    pub paper_id: i64,
    pub title: String,
    pub body: String,
    pub cursor: usize,
}

impl PaperNote {
    /// A copy of the note.
    pub fn copy(&self) -> (r: PaperNote)
        ensures
            r == *self,
    {
        PaperNote {
            paper_id: self.paper_id,
            title: self.title.clone(),
            body: self.body.clone(),
            cursor: self.cursor,
        }
    }
}

/// A prompt for the name of a group or of a file.
#[derive(Debug)]
pub struct MetadataPrompt {
    pub paper_id: Option<i64>,
    pub rename_collection_id: Option<i64>,
    pub rename_paper_id: Option<i64>,
    pub value: String,
    pub cursor: usize,
    pub selected: usize,
    pub current_collection: Option<String>,
}

/// A writing project. The time it was opened is in seconds.
#[derive(Debug)]
pub struct Project {
    pub name: String,
    pub path: String,
    pub opened_at: i64,
}

impl Project {
    /// A copy of the project.
    pub fn copy(&self) -> (r: Project)
        ensures
            r == *self,
    {
        Project { name: self.name.clone(), path: self.path.clone(), opened_at: self.opened_at }
    }
}

/// What is deleted once the user agrees.
#[derive(Debug)]
pub enum DeletionTarget {
    Paper { id: i64, title: String, path: Option<String> },
    Collection { id: i64, name: String, path: Option<String> },
    Project { project: Project },
    ProjectEntry { path: String, name: String, is_directory: bool },
}

/// A row of the groups workspace: a group, or a paper found by a search.
#[derive(Debug)]
pub enum CollectionSearchItem {
    Collection(CollectionSummary),
    Paper(LibraryPaper, CollectionSummary),
}

/// A suggestion for the key of a citation.
#[derive(Debug)]
pub struct CompletionItem {
    pub label: String,
    pub insert_text: String,
}

/// Whether a list of results is being loaded.
#[derive(Debug)]
pub enum DiscoveryStatus {
    Idle,
    Loading,
    Ready,
    Error(String),
}

/// Search results and the two inputs above them.
#[derive(Debug)]
pub struct DiscoveryState {
    pub query: String,
    pub query_cursor: usize,
    pub filter: String,
    pub filter_cursor: usize,
    pub results: Vec<RemotePaper>,
    pub page: usize,
    pub selected: usize,
    pub scroll: usize,
    pub detail_scroll: usize,
    pub status: DiscoveryStatus,
    pub progress_message: Option<String>,
    pub next_batch_start: Option<u16>,
    pub request_id: u64,
}

/// The daily feed of the dashboard.
#[derive(Debug)]
pub struct TodayState {
    pub papers: Vec<RemotePaper>,
    pub selected: usize,
    pub status: DiscoveryStatus,
}

/// The local library.
#[derive(Debug)]
pub struct LibraryState {
    pub papers: Vec<LibraryPaper>,
    pub selected: usize,
    pub indexing: bool,
    pub message: Option<String>,
}

/// The downloads and the selected one.
#[derive(Debug)]
pub struct DownloadsState {
    pub tasks: Vec<DownloadTask>,
    pub selected: usize,
}

/// The groups, and the papers of the open one. `found` holds the rows that the
/// local search has found.
#[derive(Debug)]
pub struct CollectionsState {
    pub items: Vec<CollectionSummary>,
    pub found: Vec<CollectionSearchItem>,
    pub selected: usize,
    pub active: Option<CollectionSummary>,
    pub papers: Vec<LibraryPaper>,
    pub paper_selected: usize,
    pub last_opened: Option<i64>,
}

/// The authors, and the papers of the open one.
#[derive(Debug)]
pub struct AuthorsState {
    pub items: Vec<AuthorSummary>,
    pub selected: usize,
    pub active: Option<AuthorSummary>,
    pub papers: Vec<LibraryPaper>,
    pub paper_selected: usize,
    pub last_opened: Option<i64>,
}

/// The bookmarks and the selected one.
#[derive(Debug)]
pub struct BookmarksState {
    pub items: Vec<BookmarkSummary>,
    pub selected: usize,
}

/// The papers with notes, and the note being written.
#[derive(Debug)]
pub struct NotesState {
    pub papers: Vec<LibraryPaper>,
    pub selected: usize,
    pub editor: Option<PaperNote>,
    pub preview: bool,
    pub scroll: usize,
}

/// The reading queue and the selected paper.
#[derive(Debug)]
pub struct QueueState {
    pub papers: Vec<LibraryPaper>,
    pub selected: usize,
}

/// The links of the credits and the selected one.
#[derive(Debug)]
pub struct CreditsState {
    pub urls: Vec<String>,
    pub selected: usize,
}

/// The navigator over all sections.
#[derive(Debug)]
pub struct PaletteState {
    pub query: String,
    pub query_cursor: usize,
    pub selected: usize,
}

/// The sections that have a local search, and whether it is open there.
#[derive(Clone, Copy, Debug, PartialEq, Eq, Structural)]
pub struct OpenSearches {
    pub library: bool,
    pub reading_queue: bool,
    pub collections: bool,
    pub bookmarks: bool,
    pub authors: bool,
    pub notes: bool,
    pub downloads: bool,
}

impl OpenSearches {
    /// Whether the local search of a section is open.
    pub open spec fn has(self, page: Page) -> bool {
        match page {
            Page::Library => self.library,
            Page::ReadingQueue => self.reading_queue,
            Page::Collections => self.collections,
            Page::Bookmarks => self.bookmarks,
            Page::Authors => self.authors,
            Page::Notes => self.notes,
            Page::Downloads => self.downloads,
            _ => false,
        }
    }

    /// The same with the local search of one section open or closed.
    pub open spec fn with(self, page: Page, open: bool) -> OpenSearches {
        match page {
            Page::Library => OpenSearches { library: open, ..self },
            Page::ReadingQueue => OpenSearches { reading_queue: open, ..self },
            Page::Collections => OpenSearches { collections: open, ..self },
            Page::Bookmarks => OpenSearches { bookmarks: open, ..self },
            Page::Authors => OpenSearches { authors: open, ..self },
            Page::Notes => OpenSearches { notes: open, ..self },
            Page::Downloads => OpenSearches { downloads: open, ..self },
            _ => self,
        }
    }

    /// No local search is open.
    pub fn none() -> (r: OpenSearches)
        ensures
            forall|page: Page| !r.has(page),
    {
        OpenSearches {
            library: false,
            reading_queue: false,
            collections: false,
            bookmarks: false,
            authors: false,
            notes: false,
            downloads: false,
        }
    }

    /// Whether the local search of a section is open.
    pub fn contains(&self, page: Page) -> (r: bool)
        ensures
            r == self.has(page),
    {
        match page {
            Page::Library => self.library,
            Page::ReadingQueue => self.reading_queue,
            Page::Collections => self.collections,
            Page::Bookmarks => self.bookmarks,
            Page::Authors => self.authors,
            Page::Notes => self.notes,
            Page::Downloads => self.downloads,
            _ => false,
        }
    }

    /// Opens or closes the local search of a section.
    pub fn set(&mut self, page: Page, open: bool)
        ensures
            *final(self) == old(self).with(page, open),
    {
        match page {
            Page::Library => self.library = open,
            Page::ReadingQueue => self.reading_queue = open,
            Page::Collections => self.collections = open,
            Page::Bookmarks => self.bookmarks = open,
            Page::Authors => self.authors = open,
            Page::Notes => self.notes = open,
            Page::Downloads => self.downloads = open,
            _ => {},
        }
    }
}

/// The local search and the sections it is open in.
#[derive(Debug)]
pub struct WorkspaceSearchState {
    pub query: String,
    pub query_cursor: usize,
    pub active: OpenSearches,
}

/// The terminal prompt.
#[derive(Debug)]
pub struct TerminalState {
    pub command: String,
    pub cursor: usize,
    pub output: String,
    pub directory: Option<String>,
}

/// The page of the open document and its place on the screen. `on_disk` tells
/// whether the file of the document exists.
#[derive(Debug)]
pub struct PdfState {
    pub path: Option<String>,
    pub on_disk: bool,
    pub viewer: String,
    pub page: usize,
    pub total_pages: usize,
    pub scroll_y: u32,
    pub max_scroll_y: u32,
    pub page_pixel_h: u32,
}

/// A text of the project editor, and the number of its characters before the caret.
#[derive(Debug)]
pub struct Snapshot {
    pub text: String,
    pub at: usize,
}

/// What the project editor remembers of the text that it holds.
#[derive(Debug)]
pub struct EditorMemory {
    /// The texts that were changed, the latest last.
    pub undo: Vec<Snapshot>,
    /// The texts that were taken back, the latest last.
    pub redo: Vec<Snapshot>,
    /// Whether the last key was the first of `gg`.
    pub pending_g: bool,
    /// The number of characters before the place where a selection of lines starts.
    pub anchor: Option<usize>,
}

/// The projects workspace.
#[derive(Debug)]
pub struct ProjectState {
    pub items: Vec<Project>,
    pub selected: usize,
    pub active: Option<Project>,
    pub pane: ProjectPane,
    pub tree_dir: Option<String>,
    pub files: Vec<String>,
    pub file_selected: usize,
    pub editor_path: Option<String>,
    pub editor_text: String,
    pub editor_cursor: usize,
    pub editor_insert_mode: bool,
    pub editor_dirty: bool,
    pub editor_memory: EditorMemory,
    pub editor_scroll: usize,
    pub editor_wrap_width: usize,
    pub editor_viewport_height: usize,
    pub completions: Vec<CompletionItem>,
    pub completion_selected: usize,
    pub build_status: String,
    pub build_errors: Vec<String>,
    pub build_scroll: usize,
    pub build_viewport_height: usize,
    pub rename_input: String,
    pub rename_cursor: usize,
    pub entry_rename_path: Option<String>,
}

/// Everything the program shows. Times are in milliseconds; a reading session
/// is timed while its document is open.
#[derive(Debug)]
pub struct App {
    pub mode: AppMode,
    pub modal_return: AppMode,
    pub help_return_mode: AppMode,
    pub page: Page,
    pub sidebar_index: usize,
    pub content_focused: bool,
    pub should_quit: bool,
    pub toast: Option<String>,
    pub toast_at: Option<u64>,
    pub enrichment_pending: bool,
    pub session_id: Option<i64>,
    pub session_start: Option<u64>,
    pub help_scroll: usize,
    pub paper_detail_scroll: usize,
    pub palette: PaletteState,
    pub search: WorkspaceSearchState,
    pub terminal: TerminalState,
    pub discovery: DiscoveryState,
    pub today: TodayState,
    pub library: LibraryState,
    pub downloads: DownloadsState,
    pub collections: CollectionsState,
    pub authors: AuthorsState,
    pub bookmarks: BookmarksState,
    pub notes: NotesState,
    pub queue: QueueState,
    pub credits: CreditsState,
    pub prompt: Option<MetadataPrompt>,
    pub delete_confirmation: Option<DeletionTarget>,
    pub project: ProjectState,
    pub pdf: PdfState,
}

/// Whether every caret of the program lies between two characters of its text.
pub open spec fn carets_ok(app: App) -> bool {
    &&& is_boundary(app.palette.query@, app.palette.query_cursor as int)
    &&& is_boundary(app.search.query@, app.search.query_cursor as int)
    &&& is_boundary(app.terminal.command@, app.terminal.cursor as int)
    &&& app.mode == AppMode::Search ==> is_boundary(
        app.discovery.query@,
        app.discovery.query_cursor as int,
    )
    &&& is_boundary(app.discovery.filter@, app.discovery.filter_cursor as int)
    &&& is_boundary(app.project.editor_text@, app.project.editor_cursor as int)
    &&& is_boundary(app.project.rename_input@, app.project.rename_cursor as int)
    &&& app.notes.editor matches Some(note) ==> is_boundary(note.body@, note.cursor as int)
    &&& app.prompt matches Some(prompt) ==> is_boundary(prompt.value@, prompt.cursor as int)
}

/// Whether every caret lies between two characters, that of the search input
/// also while it is not shown.
pub open spec fn all_carets_ok(app: App) -> bool {
    carets_ok(app) && is_boundary(app.discovery.query@, app.discovery.query_cursor as int)
}

/// The links of the credits.
pub open spec fn credit_links() -> Seq<Seq<char>> {
    seq![
        "https://github.com/AfrozSaqlain/Papr"@,
        "https://github.com/AfrozSaqlain/Papr/releases/latest"@,
    ]
}

/// The program as it starts: the dashboard, with nothing in it but the links of
/// the credits.
pub open spec fn is_fresh(app: App) -> bool {
    &&& app.mode == AppMode::Normal
    &&& app.modal_return == AppMode::Normal
    &&& app.help_return_mode == AppMode::Normal
    &&& app.page == Page::Dashboard
    &&& app.sidebar_index == 0
    &&& !app.content_focused
    &&& !app.should_quit
    &&& app.toast is None
    &&& app.toast_at is None
    &&& !app.enrichment_pending
    &&& app.session_id is None
    &&& app.session_start is None
    &&& app.help_scroll == 0
    &&& app.paper_detail_scroll == 0
    &&& app.palette.query@.len() == 0
    &&& app.palette.query_cursor == 0
    &&& app.palette.selected == 0
    &&& app.search.query@.len() == 0
    &&& app.search.query_cursor == 0
    &&& forall|page: Page| !app.search.active.has(page)
    &&& app.terminal.command@.len() == 0
    &&& app.terminal.cursor == 0
    &&& app.terminal.output@.len() == 0
    &&& app.terminal.directory is None
    &&& app.discovery.query@.len() == 0
    &&& app.discovery.query_cursor == 0
    &&& app.discovery.filter@.len() == 0
    &&& app.discovery.filter_cursor == 0
    &&& app.discovery.results@.len() == 0
    &&& app.discovery.page == 0
    &&& app.discovery.selected == 0
    &&& app.discovery.scroll == 0
    &&& app.discovery.detail_scroll == 0
    &&& app.discovery.status == DiscoveryStatus::Idle
    &&& app.discovery.progress_message is None
    &&& app.discovery.next_batch_start is None
    &&& app.discovery.request_id == 0
    &&& app.today.papers@.len() == 0
    &&& app.today.selected == 0
    &&& app.today.status == DiscoveryStatus::Idle
    &&& app.library.papers@.len() == 0
    &&& app.library.selected == 0
    &&& !app.library.indexing
    &&& app.library.message is None
    &&& app.downloads.tasks@.len() == 0
    &&& app.downloads.selected == 0
    &&& app.collections.items@.len() == 0
    &&& app.collections.found@.len() == 0
    &&& app.collections.selected == 0
    &&& app.collections.active is None
    &&& app.collections.papers@.len() == 0
    &&& app.collections.paper_selected == 0
    &&& app.collections.last_opened is None
    &&& app.authors.items@.len() == 0
    &&& app.authors.selected == 0
    &&& app.authors.active is None
    &&& app.authors.papers@.len() == 0
    &&& app.authors.paper_selected == 0
    &&& app.authors.last_opened is None
    &&& app.bookmarks.items@.len() == 0
    &&& app.bookmarks.selected == 0
    &&& app.notes.papers@.len() == 0
    &&& app.notes.selected == 0
    &&& app.notes.editor is None
    &&& !app.notes.preview
    &&& app.notes.scroll == 0
    &&& app.queue.papers@.len() == 0
    &&& app.queue.selected == 0
    &&& texts(app.credits.urls@) == credit_links()
    &&& app.credits.selected == 0
    &&& app.prompt is None
    &&& app.delete_confirmation is None
    &&& app.project.items@.len() == 0
    &&& app.project.selected == 0
    &&& app.project.active is None
    &&& app.project.pane == ProjectPane::ProjectList
    &&& app.project.tree_dir is None
    &&& app.project.files@.len() == 0
    &&& app.project.file_selected == 0
    &&& app.project.editor_path is None
    &&& app.project.editor_text@.len() == 0
    &&& app.project.editor_cursor == 0
    &&& !app.project.editor_insert_mode
    &&& !app.project.editor_dirty
    &&& app.project.editor_memory.undo@.len() == 0
    &&& app.project.editor_memory.redo@.len() == 0
    &&& !app.project.editor_memory.pending_g
    &&& app.project.editor_memory.anchor is None
    &&& app.project.editor_scroll == 0
    &&& app.project.editor_wrap_width == 0
    &&& app.project.editor_viewport_height == 0
    &&& app.project.completions@.len() == 0
    &&& app.project.completion_selected == 0
    &&& app.project.build_status@.len() == 0
    &&& app.project.build_errors@.len() == 0
    &&& app.project.build_scroll == 0
    &&& app.project.build_viewport_height == 0
    &&& app.project.rename_input@.len() == 0
    &&& app.project.rename_cursor == 0
    &&& app.project.entry_rename_path is None
    &&& app.pdf.path is None
    &&& !app.pdf.on_disk
    &&& app.pdf.viewer@ == "internal"@
    &&& app.pdf.page == 1
    &&& app.pdf.total_pages == 1
    &&& app.pdf.scroll_y == 0
    &&& app.pdf.max_scroll_y == 0
    &&& app.pdf.page_pixel_h == 0
}

impl Default for App {
    /// The program as it starts.
    fn default() -> (r: App)
        ensures
            is_fresh(r),
            all_carets_ok(r),
    {
        let mut urls: Vec<String> = Vec::new();
        urls.push("https://github.com/AfrozSaqlain/Papr".to_owned());
        urls.push("https://github.com/AfrozSaqlain/Papr/releases/latest".to_owned());
        let r = App {
            mode: AppMode::Normal,
            modal_return: AppMode::Normal,
            help_return_mode: AppMode::Normal,
            page: Page::Dashboard,
            sidebar_index: 0,
            content_focused: false,
            should_quit: false,
            toast: None,
            toast_at: None,
            enrichment_pending: false,
            session_id: None,
            session_start: None,
            help_scroll: 0,
            paper_detail_scroll: 0,
            palette: PaletteState { query: String::new(), query_cursor: 0, selected: 0 },
            search: WorkspaceSearchState {
                query: String::new(),
                query_cursor: 0,
                active: OpenSearches::none(),
            },
            terminal: TerminalState {
                command: String::new(),
                cursor: 0,
                output: String::new(),
                directory: None,
            },
            discovery: DiscoveryState {
                query: String::new(),
                query_cursor: 0,
                filter: String::new(),
                filter_cursor: 0,
                results: Vec::new(),
                page: 0,
                selected: 0,
                scroll: 0,
                detail_scroll: 0,
                status: DiscoveryStatus::Idle,
                progress_message: None,
                next_batch_start: None,
                request_id: 0,
            },
            today: TodayState { papers: Vec::new(), selected: 0, status: DiscoveryStatus::Idle },
            library: LibraryState {
                papers: Vec::new(),
                selected: 0,
                indexing: false,
                message: None,
            },
            downloads: DownloadsState { tasks: Vec::new(), selected: 0 },
            collections: CollectionsState {
                items: Vec::new(),
                found: Vec::new(),
                selected: 0,
                active: None,
                papers: Vec::new(),
                paper_selected: 0,
                last_opened: None,
            },
            authors: AuthorsState {
                items: Vec::new(),
                selected: 0,
                active: None,
                papers: Vec::new(),
                paper_selected: 0,
                last_opened: None,
            },
            bookmarks: BookmarksState { items: Vec::new(), selected: 0 },
            notes: NotesState {
                papers: Vec::new(),
                selected: 0,
                editor: None,
                preview: false,
                scroll: 0,
            },
            queue: QueueState { papers: Vec::new(), selected: 0 },
            credits: CreditsState { urls, selected: 0 },
            prompt: None,
            delete_confirmation: None,
            project: ProjectState {
                items: Vec::new(),
                selected: 0,
                active: None,
                pane: ProjectPane::ProjectList,
                tree_dir: None,
                files: Vec::new(),
                file_selected: 0,
                editor_path: None,
                editor_text: String::new(),
                editor_cursor: 0,
                editor_insert_mode: false,
                editor_dirty: false,
                editor_memory: EditorMemory {
                    undo: Vec::new(),
                    redo: Vec::new(),
                    pending_g: false,
                    anchor: None,
                },
                editor_scroll: 0,
                editor_wrap_width: 0,
                editor_viewport_height: 0,
                completions: Vec::new(),
                completion_selected: 0,
                build_status: String::new(),
                build_errors: Vec::new(),
                build_scroll: 0,
                build_viewport_height: 0,
                rename_input: String::new(),
                rename_cursor: 0,
                entry_rename_path: None,
            },
            pdf: PdfState {
                path: None,
                on_disk: false,
                viewer: "internal".to_owned(),
                page: 1,
                total_pages: 1,
                scroll_y: 0,
                max_scroll_y: 0,
                page_pixel_h: 0,
            },
        };
        proof {
            assert(texts(r.credits.urls@) =~= credit_links());
            crate::text::lemma_boundary_ends(Seq::<char>::empty());
            assert(r.palette.query@ =~= Seq::<char>::empty());
            assert(r.search.query@ =~= Seq::<char>::empty());
            assert(r.terminal.command@ =~= Seq::<char>::empty());
            assert(r.discovery.query@ =~= Seq::<char>::empty());
            assert(r.discovery.filter@ =~= Seq::<char>::empty());
            assert(r.project.editor_text@ =~= Seq::<char>::empty());
            assert(r.project.rename_input@ =~= Seq::<char>::empty());
        }
        r
    }
}

} // verus!
