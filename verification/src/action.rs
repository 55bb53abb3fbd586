//! What a key asks the program to do beyond changing what is shown.

use crate::model::{
    MetadataPrompt, PaperNote, Project, RemotePaper, RemotePaperView,
};
use crate::strings::opt_text;
use vstd::prelude::*;

verus! {

/// A paper of the library, or one that an online catalogue describes.
#[derive(Debug)]
pub enum PaperTarget {
    Local(i64),
    Remote(RemotePaper),
}

/// Work that needs the library's database, the file system or the network.
#[derive(Debug)]
pub enum UiAction {
    Search(String),
    RetryDiscoverMore,
    OpenPaper(RemotePaper),
    OpenBrowser(String),
    Download(RemotePaper),
    Reindex,
    OpenPdf { paper_id: i64, path: String },
    OpenNote(PaperTarget),
    SaveNote(PaperNote),
    Prompt(PaperTarget),
    RenameCollection(i64),
    CreateCollection,
    SubmitPrompt(MetadataPrompt),
    Bookmark(PaperTarget),
    OpenCollection(i64),
    OpenAuthor(i64),
    OpenDownload(String),
    RenamePdf(i64),
    MarkUnread(i64),
    CopyCitation(PaperTarget),
    ConfirmDeletePaper { paper_id: i64, title: String, path: Option<String> },
    ConfirmDeleteCollection { collection_id: i64, name: String, path: Option<String> },
    DeletePaper { paper_id: i64, path: Option<String> },
    DeleteCollection { collection_id: i64, path: Option<String> },
    AddToQueue(i64),
    RemoveFromQueue(i64),
    MoveQueueItemUp(i64),
    MoveQueueItemDown(i64),
    ClosePdf,
    RetryDownload { id: String, paper: RemotePaper },
    RefreshProjects,
    CreateProject(String),
    CreateProjectFile(String),
    OpenProject(Project),
    OpenProjectFile(String),
    ConfirmDeleteProjectEntry(String),
    DeleteProjectEntry(String),
    RenameProject { project: Project, name: String },
    ConfirmDeleteProject(Project),
    DeleteProject(Project),
    RenameProjectEntry { path: String, name: String },
}

/// A [`PaperTarget`] by the texts of its paper.
pub enum TargetView {
    Local(i64),
    Remote(RemotePaperView),
}

/// A [`UiAction`] by its texts.
pub enum ActionView {
    Search(Seq<char>),
    RetryDiscoverMore,
    OpenPaper(RemotePaperView),
    OpenBrowser(Seq<char>),
    Download(RemotePaperView),
    Reindex,
    OpenPdf { paper_id: i64, path: Seq<char> },
    OpenNote(TargetView),
    SaveNote(NoteView),
    Prompt(TargetView),
    RenameCollection(i64),
    CreateCollection,
    SubmitPrompt(PromptView),
    Bookmark(TargetView),
    OpenCollection(i64),
    OpenAuthor(i64),
    OpenDownload(Seq<char>),
    RenamePdf(i64),
    MarkUnread(i64),
    CopyCitation(TargetView),
    ConfirmDeletePaper { paper_id: i64, title: Seq<char>, path: Option<Seq<char>> },
    ConfirmDeleteCollection { collection_id: i64, name: Seq<char>, path: Option<Seq<char>> },
    DeletePaper { paper_id: i64, path: Option<Seq<char>> },
    DeleteCollection { collection_id: i64, path: Option<Seq<char>> },
    AddToQueue(i64),
    RemoveFromQueue(i64),
    MoveQueueItemUp(i64),
    MoveQueueItemDown(i64),
    ClosePdf,
    RetryDownload { id: Seq<char>, paper: RemotePaperView },
    RefreshProjects,
    CreateProject(Seq<char>),
    CreateProjectFile(Seq<char>),
    OpenProject(ProjectView),
    OpenProjectFile(Seq<char>),
    ConfirmDeleteProjectEntry(Seq<char>),
    DeleteProjectEntry(Seq<char>),
    RenameProject { project: ProjectView, name: Seq<char> },
    ConfirmDeleteProject(ProjectView),
    DeleteProject(ProjectView),
    RenameProjectEntry { path: Seq<char>, name: Seq<char> },
}

/// A [`PaperNote`] by its texts.
pub struct NoteView {
    pub paper_id: i64,
    pub title: Seq<char>,
    pub body: Seq<char>,
    pub cursor: int,
}

/// A [`MetadataPrompt`] by its texts.
pub struct PromptView {
    pub paper_id: Option<i64>,
    pub rename_collection_id: Option<i64>,
    pub rename_paper_id: Option<i64>,
    pub value: Seq<char>,
    pub cursor: int,
    pub selected: int,
    pub current_collection: Option<Seq<char>>,
}

/// A [`Project`] by its texts.
pub struct ProjectView {
    pub name: Seq<char>,
    pub path: Seq<char>,
    pub opened_at: i64,
}

impl View for PaperNote {
    type V = NoteView;

    open spec fn view(&self) -> NoteView {
        NoteView {
            paper_id: self.paper_id,
            title: self.title@,
            body: self.body@,
            cursor: self.cursor as int,
        }
    }
}

impl View for MetadataPrompt {
    type V = PromptView;

    open spec fn view(&self) -> PromptView {
        PromptView {
            paper_id: self.paper_id,
            rename_collection_id: self.rename_collection_id,
            rename_paper_id: self.rename_paper_id,
            value: self.value@,
            cursor: self.cursor as int,
            selected: self.selected as int,
            current_collection: opt_text(self.current_collection),
        }
    }
}

impl View for Project {
    type V = ProjectView;

    open spec fn view(&self) -> ProjectView {
        ProjectView { name: self.name@, path: self.path@, opened_at: self.opened_at }
    }
}

impl View for PaperTarget {
    type V = TargetView;

    open spec fn view(&self) -> TargetView {
        match *self {
            PaperTarget::Local(id) => TargetView::Local(id),
            PaperTarget::Remote(p) => TargetView::Remote(p@),
        }
    }
}

impl View for UiAction {
    type V = ActionView;

    open spec fn view(&self) -> ActionView {
        match *self {
            UiAction::Search(s) => ActionView::Search(s@),
            UiAction::RetryDiscoverMore => ActionView::RetryDiscoverMore,
            UiAction::OpenPaper(p) => ActionView::OpenPaper(p@),
            UiAction::OpenBrowser(s) => ActionView::OpenBrowser(s@),
            UiAction::Download(p) => ActionView::Download(p@),
            UiAction::Reindex => ActionView::Reindex,
            UiAction::OpenPdf { paper_id, path } => ActionView::OpenPdf { paper_id, path: path@ },
            UiAction::OpenNote(t) => ActionView::OpenNote(t@),
            UiAction::SaveNote(n) => ActionView::SaveNote(n@),
            UiAction::Prompt(t) => ActionView::Prompt(t@),
            UiAction::RenameCollection(id) => ActionView::RenameCollection(id),
            UiAction::CreateCollection => ActionView::CreateCollection,
            UiAction::SubmitPrompt(p) => ActionView::SubmitPrompt(p@),
            UiAction::Bookmark(t) => ActionView::Bookmark(t@),
            UiAction::OpenCollection(id) => ActionView::OpenCollection(id),
            UiAction::OpenAuthor(id) => ActionView::OpenAuthor(id),
            UiAction::OpenDownload(s) => ActionView::OpenDownload(s@),
            UiAction::RenamePdf(id) => ActionView::RenamePdf(id),
            UiAction::MarkUnread(id) => ActionView::MarkUnread(id),
            UiAction::CopyCitation(t) => ActionView::CopyCitation(t@),
            UiAction::ConfirmDeletePaper { paper_id, title, path } =>
                ActionView::ConfirmDeletePaper { paper_id, title: title@, path: opt_text(path) },
            UiAction::ConfirmDeleteCollection { collection_id, name, path } =>
                ActionView::ConfirmDeleteCollection {
                collection_id,
                name: name@,
                path: opt_text(path),
            },
            UiAction::DeletePaper { paper_id, path } => ActionView::DeletePaper {
                paper_id,
                path: opt_text(path),
            },
            UiAction::DeleteCollection { collection_id, path } => ActionView::DeleteCollection {
                collection_id,
                path: opt_text(path),
            },
            UiAction::AddToQueue(id) => ActionView::AddToQueue(id),
            UiAction::RemoveFromQueue(id) => ActionView::RemoveFromQueue(id),
            UiAction::MoveQueueItemUp(id) => ActionView::MoveQueueItemUp(id),
            UiAction::MoveQueueItemDown(id) => ActionView::MoveQueueItemDown(id),
            UiAction::ClosePdf => ActionView::ClosePdf,
            UiAction::RetryDownload { id, paper } => ActionView::RetryDownload {
                id: id@,
                paper: paper@,
            },
            UiAction::RefreshProjects => ActionView::RefreshProjects,
            UiAction::CreateProject(s) => ActionView::CreateProject(s@),
            UiAction::CreateProjectFile(s) => ActionView::CreateProjectFile(s@),
            UiAction::OpenProject(p) => ActionView::OpenProject(p@),
            UiAction::OpenProjectFile(s) => ActionView::OpenProjectFile(s@),
            UiAction::ConfirmDeleteProjectEntry(s) => ActionView::ConfirmDeleteProjectEntry(s@),
            UiAction::DeleteProjectEntry(s) => ActionView::DeleteProjectEntry(s@),
            UiAction::RenameProject { project, name } => ActionView::RenameProject {
                project: project@,
                name: name@,
            },
            UiAction::ConfirmDeleteProject(p) => ActionView::ConfirmDeleteProject(p@),
            UiAction::DeleteProject(p) => ActionView::DeleteProject(p@),
            UiAction::RenameProjectEntry { path, name } => ActionView::RenameProjectEntry {
                path: path@,
                name: name@,
            },
        }
    }
}

/// An action that may be missing, by its texts.
pub open spec fn act(a: Option<UiAction>) -> Option<ActionView> {
    match a {
        Some(u) => Some(u@),
        None => None,
    }
}

} // verus!
