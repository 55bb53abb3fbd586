//! What an action does at once, what work it asks for, and what follows when the
//! work is done.

use crate::action::{PaperTarget, UiAction};
use crate::chars::whitespace;
use crate::citation::CitationMetadata;
use crate::discovery::{retry_more, PageFetch};
use crate::downloads::{
    can_download, clamp_selected, clamped, download_path, new_task, retry_download, retry_path,
    start_download, task_place, DownloadRequest, PendingDownloads, RetryRequest,
};
use crate::enrichment::start_scan;
use crate::model::{
    copy_opt, papers_view, tasks_view, App, AppMode, DeletionTarget, DiscoveryState,
    DiscoveryStatus, DownloadTask, DownloadsState, LibraryState, MetadataPrompt, NotesState,
    LibraryPaper, PaperNote, PdfState, Project, QueueState, RemotePaper,
};
use crate::organization::{empty_prompt, has_separator, holds_separator, show_prompt};
use crate::paths::{
    entry_name, file_name, file_name_of, inside, is_inside, join_path, joined_path, parent,
    parent_of, path_key, plain_folder, plan_project_entry, same_path, stays_inside, with_extension, without_slashes, NewEntry,
};
use crate::strings::{concat, join, joined, opt_text, same_text, texts, trim, trimmed};
use crate::workbench::{is_active, is_active_project};
use crate::workspaces::{find_paper, paper_with_id};
use vstd::prelude::*;

verus! {

/// Work outside of the program that an action asks for. The function that takes
/// the result in is named where there is one.
#[derive(Debug)]
pub enum Work {
    Nothing,
    /// Record the search, and fetch its pages.
    Search(PageFetch),
    /// Fetch the page that could not be fetched.
    FetchMore(PageFetch),
    /// Note that a paper is looked at; [`paper_browsed`].
    Browse(RemotePaper),
    OpenAddress(String),
    Download(DownloadRequest),
    RetryDownload { id: String, request: RetryRequest },
    /// Look through the library folders.
    Scan,
    /// List the projects; [`crate::workbench::projects_listed`].
    ListProjects,
    /// Create a project; [`crate::workbench::open_project_workspace`].
    CreateProject(String),
    /// Create an entry of a project; [`crate::workbench::entry_created`].
    CreateEntry { folder: String, entry: NewEntry, name: String },
    /// Open a project; [`crate::workbench::open_project_workspace`].
    OpenProject(Project),
    /// Save the editor first where it is to be saved, and read a file;
    /// [`crate::workbench::open_project_file`].
    OpenFile { path: String, save: bool },
    /// Rename an entry of a project; [`crate::workbench::entry_renamed`].
    RenameEntry { path: String, renamed: String },
    /// Find out whether an entry is a folder; [`confirm_delete_entry`].
    InspectEntry(String),
    /// Delete an entry of a project; [`crate::workbench::entry_deleted`].
    DeleteEntry(String),
    /// Rename a project; [`crate::workbench::project_announced`].
    RenameProject { project: Project, name: String },
    /// Delete a project; [`crate::workbench::project_deleted`].
    DeleteProject { project: Project, was_active: bool },
    /// Record a reading session, and open a document of the library.
    OpenPdf { paper_id: i64, path: String },
    /// Open a downloaded document, with a reading session where it has a paper.
    OpenDownload { paper_id: Option<i64>, path: String },
    /// Read the note on a paper; [`note_opened`].
    ReadNote(PaperTarget),
    SaveNote(PaperNote),
    /// Find out the group of a paper; [`crate::organization::show_collection_prompt`].
    ReadGroup(PaperTarget),
    /// Carry out a prompt; [`crate::organization::apply_collection_prompt`].
    SubmitPrompt(MetadataPrompt),
    /// Add or remove a bookmark; [`bookmark_toggled`].
    ToggleBookmark(PaperTarget),
    AddToQueue(i64),
    RemoveFromQueue(i64),
    /// Move a paper in the reading queue; [`queue_moved`].
    MoveInQueue { id: i64, up: bool },
    /// Record how long a document was read, where that is known.
    ClosePdf(Option<(i64, u64)>),
    /// Read the papers of a group; [`crate::organization::open_collection`].
    OpenCollection(i64),
    /// Read the papers of an author; [`crate::organization::open_author`].
    OpenAuthor(i64),
    MarkUnread(i64),
    /// Read what a citation is made from; [`citation_ready`].
    ReadCitation(i64),
    /// Fetch a citation and put it on the clipboard.
    FetchCitation(CitationMetadata),
    DeletePaper { paper_id: i64, path: Option<String> },
    DeleteCollection { collection_id: i64, path: Option<String> },
}

/// The year of a time, in the notation of the calendar.
pub uninterp spec fn year_text(seconds: i64) -> Option<Seq<char>>;

/// `chrono::DateTime::from_timestamp` and `format` with `%Y`: the year of a time
/// given in seconds since 1970, in UTC, where the calendar reaches so far. It
/// depends on the seconds alone.
#[verifier::external_body]
fn format_year(seconds: i64) -> (r: Option<String>)
    ensures
        opt_text(r) == year_text(seconds),
{
    chrono::DateTime::from_timestamp(seconds, 0).map(|time| time.format("%Y").to_string())
}

/// What the citation of an online paper is made from.
pub open spec fn remote_metadata(paper: RemotePaper, m: CitationMetadata) -> bool {
    &&& m.title@ == paper.title@
    &&& m.authors@ == joined(texts(paper.authors@), " and "@)
    &&& opt_text(m.doi) == opt_text(paper.doi)
    &&& opt_text(m.arxiv_id) == Some(paper.id@)
    &&& opt_text(m.year) == year_text(paper.published)
    &&& opt_text(m.journal_ref) == opt_text(paper.journal_ref)
}

/// What the citation of an online paper is made from.
pub fn citation_metadata(paper: &RemotePaper) -> (r: CitationMetadata)
    ensures
        remote_metadata(*paper, r),
{
    CitationMetadata {
        title: paper.title.clone(),
        authors: join(&paper.authors, " and "),
        doi: copy_opt(&paper.doi),
        arxiv_id: Some(paper.id.clone()),
        year: format_year(paper.published),
        journal_ref: copy_opt(&paper.journal_ref),
    }
}

/// Only the message to the user differs, and it is `message`.
pub open spec fn told(before: App, after: App, message: Seq<char>) -> bool {
    after == (App { toast: after.toast, ..before }) && opt_text(after.toast) == Some(message)
}

/// Whether a name can be that of one entry of a folder.
pub open spec fn entry_name_ok(name: Seq<char>) -> bool {
    name.len() > 0 && !has_separator(name) && name != "."@ && name != ".."@
}

/// What renaming an entry of a project does and asks for.
pub open spec fn entry_rename(before: App, after: App, work: Work, path: String, name: String) -> bool {
    let typed = trimmed(name@);
    match before.project.active {
        None => work is Nothing && told(
            before,
            after,
            "Could not rename entry: no project is open."@,
        ),
        Some(project) => if !entry_name_ok(typed) {
            work is Nothing && told(
                before,
                after,
                "Could not rename entry: enter a single file or folder name."@,
            )
        } else {
            match parent(path@) {
                None => work is Nothing && told(
                    before,
                    after,
                    "Could not rename entry: invalid path."@,
                ),
                Some(dir) => if !inside(path@, project.path@) {
                    work is Nothing && told(
                        before,
                        after,
                        "Could not rename entry outside the project."@,
                    )
                } else {
                    after == before && (work matches Work::RenameEntry { path: p, renamed } && p
                        == path && renamed@ == joined_path(dir, typed))
                },
            }
        },
    }
}

fn rename_entry(app: &mut App, path: String, name: String) -> (r: Work)
    ensures
        entry_rename(*old(app), *final(app), r, path, name),
{
    let name = trim(name.as_str());
    let inside_root: bool = match &app.project.active {
        None => {
            app.toast = Some("Could not rename entry: no project is open.".to_owned());
            return Work::Nothing;
        },
        Some(project) => is_inside(path.as_str(), project.path.as_str()),
    };
    if name.as_str().is_empty() || holds_separator(name.as_str()) || same_text(name.as_str(), ".")
        || same_text(name.as_str(), "..") {
        app.toast = Some("Could not rename entry: enter a single file or folder name.".to_owned());
        return Work::Nothing;
    }
    let dir = match parent_of(path.as_str()) {
        None => {
            app.toast = Some("Could not rename entry: invalid path.".to_owned());
            return Work::Nothing;
        },
        Some(dir) => dir,
    };
    if !inside_root {
        app.toast = Some("Could not rename entry outside the project.".to_owned());
        return Work::Nothing;
    }
    let renamed = join_path(dir.as_str(), name.as_str());
    Work::RenameEntry { path, renamed }
}

/// What deleting an entry of a project does and asks for.
pub open spec fn entry_delete(before: App, after: App, work: Work, path: String) -> bool {
    match before.project.active {
        None => work is Nothing && told(
            before,
            after,
            "Could not delete entry: no project is open."@,
        ),
        Some(project) => if path_key(path@) == path_key(project.path@) || !inside(
            path@,
            project.path@,
        ) {
            work is Nothing && told(
                before,
                after,
                "Could not delete entry outside the project."@,
            )
        } else {
            after == before && work == Work::DeleteEntry(path)
        },
    }
}

fn delete_entry(app: &mut App, path: String) -> (r: Work)
    ensures
        entry_delete(*old(app), *final(app), r, path),
{
    let refused: bool = match &app.project.active {
        None => {
            app.toast = Some("Could not delete entry: no project is open.".to_owned());
            return Work::Nothing;
        },
        Some(project) => same_path(path.as_str(), project.path.as_str()) || !is_inside(
            path.as_str(),
            project.path.as_str(),
        ),
    };
    if refused {
        app.toast = Some("Could not delete entry outside the project.".to_owned());
        return Work::Nothing;
    }
    Work::DeleteEntry(path)
}

/// What creating an entry of a project does and asks for.
pub open spec fn entry_create(before: App, after: App, work: Work, name: String) -> bool {
    match before.project.active {
        None => work is Nothing && told(
            before,
            after,
            "Could not create file: no project is open."@,
        ),
        Some(project) => {
            let path = without_slashes(trimmed(name@));
            if stays_inside(path) {
                &&& after == before
                &&& work matches Work::CreateEntry { folder, entry, name: n } && n == name
                    && entry.relative@ == path && entry.is_directory == (trimmed(name@).len() > 0
                    && trimmed(name@).last() == '/') && folder@ == (
                match before.project.tree_dir {
                    Some(dir) => dir@,
                    None => project.path@,
                })
            } else {
                work is Nothing && told(
                    before,
                    after,
                    "Could not create file: "@ + "enter a relative file path inside the project"@,
                )
            }
        },
    }
}

fn create_entry(app: &mut App, name: String) -> (r: Work)
    ensures
        entry_create(*old(app), *final(app), r, name),
{
    let folder = match &app.project.active {
        None => {
            app.toast = Some("Could not create file: no project is open.".to_owned());
            return Work::Nothing;
        },
        Some(project) => match &app.project.tree_dir {
            Some(dir) => dir.clone(),
            None => project.path.clone(),
        },
    };
    match plan_project_entry(name.as_str()) {
        Ok(entry) => Work::CreateEntry { folder, entry, name },
        Err(error) => {
            app.toast = Some(concat("Could not create file: ", error.as_str()));
            Work::Nothing
        },
    }
}

/// The paper and the file of a finished download.
pub open spec fn download_file(app: App, id: Seq<char>, directory: Seq<char>) -> (Option<i64>, Seq<
    char,
>) {
    let task = match task_place(app.downloads.tasks@, id, 0) {
        Some(k) => Some(app.downloads.tasks@[k]),
        None => None,
    };
    let paper_id = match task {
        Some(t) => t.paper_id,
        None => None,
    };
    let of_paper = match paper_id {
        Some(p) => match paper_with_id(app.library.papers@, p, 0) {
            Some(paper) => opt_text(paper.pdf_path),
            None => None,
        },
        None => None,
    };
    let of_task = match task {
        Some(t) => opt_text(t.pdf_path),
        None => None,
    };
    (
        paper_id,
        match of_paper {
            Some(path) => path,
            None => match of_task {
                Some(path) => path,
                None => joined_path(directory, id + ".pdf"@),
            },
        },
    )
}

fn find_download_file(app: &App, id: &str, directory: &str) -> (r: (Option<i64>, String))
    ensures
        r.0 == download_file(*app, id@, directory@).0,
        r.1@ == download_file(*app, id@, directory@).1,
{
    match crate::downloads::find_task(&app.downloads.tasks, id) {
        Some(k) => {
            let paper_id: Option<i64> = app.downloads.tasks[k].paper_id;
            match paper_id {
                Some(p) => match find_paper(&app.library.papers, p) {
                    Some(paper) => match &paper.pdf_path {
                        Some(path) => return (paper_id, path.clone()),
                        None => {},
                    },
                    None => {},
                },
                None => {},
            }
            match &app.downloads.tasks[k].pdf_path {
                Some(path) => (paper_id, path.clone()),
                None => (paper_id, join_path(directory, concat(id, ".pdf").as_str())),
            }
        },
        None => (None, join_path(directory, concat(id, ".pdf").as_str())),
    }
}

/// The document is closed.
pub open spec fn pdf_closed(app: App) -> App {
    App {
        session_id: None,
        session_start: None,
        mode: AppMode::Normal,
        pdf: PdfState { path: None, ..app.pdf },
        ..app
    }
}

/// How long the open document was read, in seconds, where that is known.
pub open spec fn session_length(app: App, now: u64) -> Option<(i64, u64)> {
    match (app.session_id, app.session_start) {
        (Some(id), Some(start)) => Some(
            (
                id,
                if now >= start {
                    ((now - start) / 1000) as u64
                } else {
                    0
                },
            ),
        ),
        _ => None,
    }
}

/// A search has been started.
pub open spec fn search_started(before: App, after: App, work: Work, query: String) -> bool {
    let d = after.discovery;
    &&& after == App {
        discovery: DiscoveryState {
            results: d.results,
            page: 0,
            selected: 0,
            scroll: 0,
            filter: d.filter,
            filter_cursor: 0,
            status: DiscoveryStatus::Loading,
            progress_message: None,
            next_batch_start: None,
            request_id: if before.discovery.request_id == u64::MAX {
                0
            } else {
                (before.discovery.request_id + 1) as u64
            },
            ..before.discovery
        },
        ..before
    }
    &&& d.results@.len() == 0
    &&& d.filter@.len() == 0
    &&& work matches Work::Search(fetch) && fetch.query == query && fetch.request_id
        == d.request_id && fetch.papers@.len() == 0 && fetch.start == 0 && fetch.failures == 0
}

/// What an action does at once, and what work it asks for.
pub open spec fn action_begun(
    before: App,
    after: App,
    pending: PendingDownloads,
    pending_after: PendingDownloads,
    action: UiAction,
    work: Work,
    directory: Seq<char>,
    windows: bool,
    now: u64,
) -> bool {
    &&& !(action is Download) && !(action is RetryDownload) ==> pending_after == pending
    &&& match action {
        UiAction::Search(query) => search_started(before, after, work, query),
        UiAction::RetryDiscoverMore => match before.discovery.next_batch_start {
            None => after == before && work is Nothing,
            Some(start) => {
                &&& work matches Work::FetchMore(fetch) && fetch.query@ == before.discovery.query@
                    && fetch.request_id == before.discovery.request_id && papers_view(
                    fetch.papers@,
                ) == papers_view(before.discovery.results@) && fetch.start == start
                    && fetch.failures == 0
                &&& after == App {
                    discovery: DiscoveryState {
                        status: DiscoveryStatus::Loading,
                        progress_message: after.discovery.progress_message,
                        ..before.discovery
                    },
                    ..before
                }
                &&& opt_text(after.discovery.progress_message) == Some(
                    crate::discovery::loading_more(),
                )
            },
        },
        UiAction::OpenPaper(paper) => after == before && work == Work::Browse(paper),
        UiAction::OpenBrowser(url) => after == before && work == Work::OpenAddress(url),
        UiAction::Download(paper) => if can_download(before, pending, paper) {
            let path = download_path(paper, directory, windows);
            &&& work matches Work::Download(request) && request.id@ == paper.id@ && Some(
                request.url@,
            ) == opt_text(paper.pdf_url) && request.destination@ == path
            &&& pending_after@ == pending@.insert(paper.id@, paper@)
            &&& after == App {
                toast: after.toast,
                downloads: DownloadsState { tasks: after.downloads.tasks, ..before.downloads },
                ..before
            }
            &&& opt_text(after.toast) == Some("Downloading paper..."@)
            &&& tasks_view(after.downloads.tasks@) == tasks_view(before.downloads.tasks@).push(
                new_task(paper, path),
            )
        } else {
            &&& work is Nothing
            &&& pending_after == pending
            &&& after == App { toast: after.toast, ..before }
            &&& if paper.pdf_url is Some && crate::modals::download_of(
                before.library.papers@,
                paper,
                0,
            ) is Some {
                opt_text(after.toast) == Some("Paper already available. Skipping download..."@)
            } else {
                after.toast == before.toast
            }
        },
        UiAction::RetryDownload { id, paper } => if !pending@.dom().contains(id@) && task_place(
            before.downloads.tasks@,
            id@,
            0,
        ) is Some {
            let k = task_place(before.downloads.tasks@, id@, 0)->0;
            let task = before.downloads.tasks@[k];
            &&& work matches Work::RetryDownload { id: i, request } && i == id && request.url@ == (
            match paper.pdf_url {
                Some(url) => url@,
                None => Seq::empty(),
            }) && request.destination@ == retry_path(task, directory) && texts(request.stale@) == (
            match task.pdf_path {
                Some(p) => seq![p@, with_extension(p@, "pdf.part"@)],
                None => Seq::empty(),
            })
            &&& pending_after@ == pending@.insert(id@, paper@)
            &&& after == App {
                toast: after.toast,
                downloads: DownloadsState { tasks: after.downloads.tasks, ..before.downloads },
                ..before
            }
            &&& opt_text(after.toast) == Some("Retrying download..."@)
            &&& after.downloads.tasks@ == before.downloads.tasks@.update(
                k,
                DownloadTask {
                    downloaded: 0,
                    total: None,
                    status: crate::model::DownloadStatus::Starting,
                    failed_at: None,
                    ..task
                },
            )
        } else {
            after == before && pending_after == pending && work is Nothing
        },
        UiAction::Reindex => if before.library.indexing {
            after == before && work is Nothing
        } else {
            &&& work is Scan
            &&& after == App {
                library: LibraryState {
                    indexing: true,
                    message: after.library.message,
                    ..before.library
                },
                ..before
            }
            &&& opt_text(after.library.message) == Some("Indexing library folders..."@)
        },
        UiAction::RefreshProjects => after == before && work is ListProjects,
        UiAction::CreateProject(name) => after == before && (work matches Work::CreateProject(n)
            && n@ == trimmed(name@)),
        UiAction::CreateProjectFile(name) => entry_create(before, after, work, name),
        UiAction::OpenProject(project) => after == before && work == Work::OpenProject(project),
        UiAction::OpenProjectFile(path) => after == before && work == (Work::OpenFile {
            path,
            save: before.project.editor_dirty,
        }),
        UiAction::RenameProjectEntry { path, name } => entry_rename(
            before,
            after,
            work,
            path,
            name,
        ),
        UiAction::ConfirmDeleteProjectEntry(path) => after == before && work
            == Work::InspectEntry(path),
        UiAction::DeleteProjectEntry(path) => entry_delete(before, after, work, path),
        UiAction::RenameProject { project, name } => after == before && work == (
        Work::RenameProject { project, name }),
        UiAction::ConfirmDeleteProject(project) => work is Nothing && after == (App {
            delete_confirmation: Some(DeletionTarget::Project { project }),
            mode: AppMode::ConfirmDelete,
            ..before
        }),
        UiAction::DeleteProject(project) => after == before && work == (Work::DeleteProject {
            project,
            was_active: is_active(before.project, project),
        }),
        UiAction::OpenPdf { paper_id, path } => after == before && work == (Work::OpenPdf {
            paper_id,
            path,
        }),
        UiAction::OpenNote(target) => after == before && work == Work::ReadNote(target),
        UiAction::SaveNote(note) => after == before && work == Work::SaveNote(note),
        UiAction::Prompt(target) => after == before && work == Work::ReadGroup(target),
        UiAction::RenameCollection(id) => work is Nothing && after == (App {
            prompt: after.prompt,
            mode: AppMode::Prompt,
            ..before
        }) && (after.prompt matches Some(p) && empty_prompt(p, None, Some(id), None, None)),
        UiAction::RenamePdf(id) => work is Nothing && after == (App {
            prompt: after.prompt,
            mode: AppMode::Prompt,
            ..before
        }) && (after.prompt matches Some(p) && empty_prompt(p, None, None, Some(id), None)),
        UiAction::CreateCollection => work is Nothing && after == (App {
            prompt: after.prompt,
            mode: AppMode::Prompt,
            ..before
        }) && (after.prompt matches Some(p) && empty_prompt(p, None, None, None, None)),
        UiAction::SubmitPrompt(prompt) => after == before && work == Work::SubmitPrompt(prompt),
        UiAction::Bookmark(target) => after == before && work == Work::ToggleBookmark(target),
        UiAction::AddToQueue(id) => after == before && work == Work::AddToQueue(id),
        UiAction::RemoveFromQueue(id) => after == before && work == Work::RemoveFromQueue(id),
        UiAction::MoveQueueItemUp(id) => after == before && work == (Work::MoveInQueue {
            id,
            up: true,
        }),
        UiAction::MoveQueueItemDown(id) => after == before && work == (Work::MoveInQueue {
            id,
            up: false,
        }),
        UiAction::ClosePdf => after == pdf_closed(before) && work == Work::ClosePdf(
            session_length(before, now),
        ),
        UiAction::OpenCollection(id) => after == before && work == Work::OpenCollection(id),
        UiAction::OpenAuthor(id) => after == before && work == Work::OpenAuthor(id),
        UiAction::OpenDownload(id) => after == before && (work matches Work::OpenDownload {
            paper_id,
            path,
        } && (paper_id, path@) == download_file(before, id@, directory)),
        UiAction::MarkUnread(id) => after == before && work == Work::MarkUnread(id),
        UiAction::CopyCitation(target) => match target {
            PaperTarget::Local(id) => after == before && work == Work::ReadCitation(id),
            PaperTarget::Remote(paper) => told(before, after, "Fetching citation..."@) && (
            work matches Work::FetchCitation(m) && remote_metadata(paper, m)),
        },
        UiAction::ConfirmDeletePaper { paper_id, title, path } => work is Nothing && after == (App {
            delete_confirmation: Some(DeletionTarget::Paper { id: paper_id, title, path }),
            mode: AppMode::ConfirmDelete,
            ..before
        }),
        UiAction::ConfirmDeleteCollection { collection_id, name, path } => work is Nothing && after
            == (App {
            delete_confirmation: Some(
                DeletionTarget::Collection { id: collection_id, name, path },
            ),
            mode: AppMode::ConfirmDelete,
            ..before
        }),
        UiAction::DeletePaper { paper_id, path } => after == before && work == (
        Work::DeletePaper { paper_id, path }),
        UiAction::DeleteCollection { collection_id, path } => after == before && work == (
        Work::DeleteCollection { collection_id, path }),
    }
}

/// Does what an action does at once, and tells what work it asks for. `directory`
/// is the folder of downloads, `now` the time in milliseconds.
#[verifier::rlimit(60)]
pub fn apply_ui_action(
    app: &mut App,
    pending: &mut PendingDownloads,
    action: UiAction,
    directory: &str,
    windows: bool,
    now: u64,
) -> (r: Work)
    requires
        old(pending).wf(),
    ensures
        final(pending).wf(),
        action_begun(
            *old(app),
            *final(app),
            *old(pending),
            *final(pending),
            action,
            r,
            directory@,
            windows,
            now,
        ),
{
    match action {
        UiAction::Search(query) => {
            let request_id: u64 = app.discovery.begin_search();
            Work::Search(
                PageFetch { query, request_id, papers: Vec::new(), start: 0, failures: 0 },
            )
        },
        UiAction::RetryDiscoverMore => match retry_more(&mut app.discovery) {
            Some(fetch) => Work::FetchMore(fetch),
            None => Work::Nothing,
        },
        UiAction::OpenPaper(paper) => Work::Browse(paper),
        UiAction::OpenBrowser(url) => Work::OpenAddress(url),
        UiAction::Download(paper) => match start_download(app, pending, paper, directory, windows) {
            Some(request) => Work::Download(request),
            None => Work::Nothing,
        },
        UiAction::RetryDownload { id, paper } => match retry_download(
            app,
            pending,
            id.as_str(),
            paper,
            directory,
        ) {
            Some(request) => Work::RetryDownload { id, request },
            None => Work::Nothing,
        },
        UiAction::Reindex => {
            if start_scan(&mut app.library, false) {
                Work::Scan
            } else {
                Work::Nothing
            }
        },
        UiAction::RefreshProjects => Work::ListProjects,
        UiAction::CreateProject(name) => Work::CreateProject(trim(name.as_str())),
        UiAction::CreateProjectFile(name) => create_entry(app, name),
        UiAction::OpenProject(project) => Work::OpenProject(project),
        UiAction::OpenProjectFile(path) => Work::OpenFile {
            path,
            save: app.project.editor_dirty,
        },
        UiAction::RenameProjectEntry { path, name } => rename_entry(app, path, name),
        UiAction::ConfirmDeleteProjectEntry(path) => Work::InspectEntry(path),
        UiAction::DeleteProjectEntry(path) => delete_entry(app, path),
        UiAction::RenameProject { project, name } => Work::RenameProject { project, name },
        UiAction::ConfirmDeleteProject(project) => {
            app.delete_confirmation = Some(DeletionTarget::Project { project });
            app.mode = AppMode::ConfirmDelete;
            Work::Nothing
        },
        UiAction::DeleteProject(project) => {
            let was_active: bool = is_active_project(&app.project, &project);
            Work::DeleteProject { project, was_active }
        },
        UiAction::OpenPdf { paper_id, path } => Work::OpenPdf { paper_id, path },
        UiAction::OpenNote(target) => Work::ReadNote(target),
        UiAction::SaveNote(note) => Work::SaveNote(note),
        UiAction::Prompt(target) => Work::ReadGroup(target),
        UiAction::RenameCollection(id) => {
            show_prompt(app, None, Some(id), None, None);
            Work::Nothing
        },
        UiAction::RenamePdf(id) => {
            show_prompt(app, None, None, Some(id), None);
            Work::Nothing
        },
        UiAction::CreateCollection => {
            show_prompt(app, None, None, None, None);
            Work::Nothing
        },
        UiAction::SubmitPrompt(prompt) => Work::SubmitPrompt(prompt),
        UiAction::Bookmark(target) => Work::ToggleBookmark(target),
        UiAction::AddToQueue(id) => Work::AddToQueue(id),
        UiAction::RemoveFromQueue(id) => Work::RemoveFromQueue(id),
        UiAction::MoveQueueItemUp(id) => Work::MoveInQueue { id, up: true },
        UiAction::MoveQueueItemDown(id) => Work::MoveInQueue { id, up: false },
        UiAction::ClosePdf => {
            let session: Option<(i64, u64)> = match (app.session_id, app.session_start) {
                (Some(id), Some(start)) => Some(
                    (
                        id,
                        if now >= start {
                            (now - start) / 1000
                        } else {
                            0
                        },
                    ),
                ),
                _ => None,
            };
            app.session_id = None;
            app.session_start = None;
            app.mode = AppMode::Normal;
            app.pdf.path = None;
            Work::ClosePdf(session)
        },
        UiAction::OpenCollection(id) => Work::OpenCollection(id),
        UiAction::OpenAuthor(id) => Work::OpenAuthor(id),
        UiAction::OpenDownload(id) => {
            let (paper_id, path) = find_download_file(app, id.as_str(), directory);
            Work::OpenDownload { paper_id, path }
        },
        UiAction::MarkUnread(id) => Work::MarkUnread(id),
        UiAction::CopyCitation(target) => match target {
            PaperTarget::Local(id) => Work::ReadCitation(id),
            PaperTarget::Remote(paper) => {
                let metadata = citation_metadata(&paper);
                app.toast = Some("Fetching citation...".to_owned());
                Work::FetchCitation(metadata)
            },
        },
        UiAction::ConfirmDeletePaper { paper_id, title, path } => {
            app.delete_confirmation = Some(DeletionTarget::Paper { id: paper_id, title, path });
            app.mode = AppMode::ConfirmDelete;
            Work::Nothing
        },
        UiAction::ConfirmDeleteCollection { collection_id, name, path } => {
            app.delete_confirmation = Some(
                DeletionTarget::Collection { id: collection_id, name, path },
            );
            app.mode = AppMode::ConfirmDelete;
            Work::Nothing
        },
        UiAction::DeletePaper { paper_id, path } => Work::DeletePaper { paper_id, path },
        UiAction::DeleteCollection { collection_id, path } => Work::DeleteCollection {
            collection_id,
            path,
        },
    }
}

/// Shows the details of a paper.
pub fn paper_browsed(app: &mut App)
    ensures
        *final(app) == (App { mode: AppMode::PaperDetail, paper_detail_scroll: 0, ..*old(app) }),
{
    app.mode = AppMode::PaperDetail;
    app.paper_detail_scroll = 0;
}

/// Asks whether an entry of a project is to be deleted.
pub fn confirm_delete_entry(app: &mut App, path: String, is_directory: bool)
    ensures
        *final(app) == (App {
            delete_confirmation: final(app).delete_confirmation,
            mode: AppMode::ConfirmDelete,
            ..*old(app)
        }),
        final(app).delete_confirmation matches Some(DeletionTarget::ProjectEntry {
            path: p,
            name,
            is_directory: d,
        }) && p == path && d == is_directory && name@ == (match file_name(path@) {
            Some(last) => last,
            None => "entry"@,
        }),
{
    let name = match file_name_of(path.as_str()) {
        Some(name) => name,
        None => "entry".to_owned(),
    };
    app.delete_confirmation = Some(DeletionTarget::ProjectEntry { path, name, is_directory });
    app.mode = AppMode::ConfirmDelete;
}

/// Opens the editor of a note.
pub fn note_opened(app: &mut App, note: PaperNote)
    ensures
        *final(app) == (App {
            notes: NotesState { editor: Some(note), preview: false, scroll: 0, ..old(app).notes },
            mode: AppMode::NoteEdit,
            ..*old(app)
        }),
{
    app.notes.editor = Some(note);
    app.notes.preview = false;
    app.notes.scroll = 0;
    app.mode = AppMode::NoteEdit;
}

/// Tells the user what has become of a bookmark.
pub fn bookmark_toggled(app: &mut App, active: bool)
    ensures
        told(
            *old(app),
            *final(app),
            if active {
                "Paper bookmarked"@
            } else {
                "Bookmark removed"@
            },
        ),
{
    app.toast = Some(
        if active {
            "Paper bookmarked".to_owned()
        } else {
            "Bookmark removed".to_owned()
        },
    );
}

/// Keeps a paper selected that was moved in the reading queue.
pub fn queue_moved(queue: &mut QueueState, up: bool)
    ensures
        *final(queue) == (QueueState {
            selected: if up {
                if old(queue).selected == 0 {
                    0
                } else {
                    (old(queue).selected - 1) as usize
                }
            } else if old(queue).selected == usize::MAX {
                clamped(usize::MAX, old(queue).papers@.len())
            } else {
                clamped((old(queue).selected + 1) as usize, old(queue).papers@.len())
            },
            ..*old(queue)
        }),
{
    queue.selected = if up {
        queue.selected.saturating_sub(1)
    } else {
        clamp_selected(queue.selected.saturating_add(1), queue.papers.len())
    };
}

/// Tells the user that a citation is fetched, or that nothing is known to make one.
pub fn citation_ready(app: &mut App, metadata: Option<CitationMetadata>) -> (r: Option<
    CitationMetadata,
>)
    ensures
        r == metadata,
        told(
            *old(app),
            *final(app),
            if metadata is Some {
                "Fetching citation..."@
            } else {
                "Citation metadata not available"@
            },
        ),
{
    app.toast = Some(
        if metadata.is_some() {
            "Fetching citation...".to_owned()
        } else {
            "Citation metadata not available".to_owned()
        },
    );
    metadata
}

/// The group is closed where it is the one that was deleted.
pub fn collection_deleted(app: &mut App, collection_id: i64)
    ensures
        ({
            let open = old(app).collections.active matches Some(c) && c.id == collection_id;
            &&& *final(app) == (App {
                toast: final(app).toast,
                collections: crate::model::CollectionsState {
                    active: if open {
                        None
                    } else {
                        old(app).collections.active
                    },
                    papers: final(app).collections.papers,
                    ..old(app).collections
                },
                ..*old(app)
            })
            &&& open ==> final(app).collections.papers@.len() == 0
            &&& !open ==> final(app).collections.papers == old(app).collections.papers
            &&& opt_text(final(app).toast) == Some("Group permanently deleted"@)
        }),
{
    let open: bool = match &app.collections.active {
        Some(c) => c.id == collection_id,
        None => false,
    };
    if open {
        app.collections.active = None;
        app.collections.papers = Vec::new();
    }
    app.toast = Some("Group permanently deleted".to_owned());
}

/// Renaming an entry of a project leaves it in its folder, under the name that was typed,
/// whatever white space stands around it. A name that is no name of an entry changes
/// nothing.
pub proof fn lemma_entry_is_renamed_in_place(
    before: App,
    after: App,
    work: Work,
    project: Project,
    folder: Seq<char>,
    old_name: Seq<char>,
    path: String,
    name: String,
)
    requires
        entry_rename(before, after, work, path, name),
        before.project.active == Some(project),
        plain_folder(folder),
        inside(folder, project.path@),
        entry_name(old_name),
        path@ == folder + seq!['/'] + old_name,
    ensures
        forall|a: Seq<char>, n: Seq<char>, b: Seq<char>|
            {
                &&& name@ == #[trigger] (a + n + b)
                &&& entry_name(n)
                &&& !n.contains('\\')
                &&& !whitespace(n[0])
                &&& !whitespace(n.last())
                &&& forall|i: int| 0 <= i < a.len() ==> whitespace(#[trigger] a[i])
                &&& forall|i: int| 0 <= i < b.len() ==> whitespace(#[trigger] b[i])
            } ==> after == before && (work matches Work::RenameEntry { path: p, renamed } && p
                == path && renamed@ == folder + seq!['/'] + n),
        name@.contains('/') && !whitespace('/') ==> work is Nothing && after.project
            == before.project,
        (forall|i: int| 0 <= i < name@.len() ==> whitespace(#[trigger] name@[i]))
            ==> work is Nothing && after.project == before.project,
{
    crate::paths::lemma_entry_of_folder(folder, old_name, old_name);
    crate::paths::lemma_entry_is_inside(folder, old_name, old_name);
    crate::paths::lemma_inside(path@, folder, project.path@);
    reveal_strlit(".");
    reveal_strlit("..");
    assert forall|a: Seq<char>, n: Seq<char>, b: Seq<char>|
        {
            &&& name@ == #[trigger] (a + n + b)
            &&& entry_name(n)
            &&& !n.contains('\\')
            &&& !whitespace(n[0])
            &&& !whitespace(n.last())
            &&& forall|i: int| 0 <= i < a.len() ==> whitespace(#[trigger] a[i])
            &&& forall|i: int| 0 <= i < b.len() ==> whitespace(#[trigger] b[i])
        } implies after == before && (work matches Work::RenameEntry { path: p, renamed } && p
        == path && renamed@ == folder + seq!['/'] + n) by {
        crate::strings::lemma_trimmed_inside(a, n, b);
        assert(trimmed(name@) == n);
        assert(!n.contains('/'));
        assert(entry_name_ok(n));
        crate::paths::lemma_entry_of_folder(folder, n, n);
    }
    if name@.contains('/') && !whitespace('/') {
        let (x, y) = crate::strings::lemma_trimmed_between(name@);
        let k = choose|k: int| 0 <= k < name@.len() && name@[k] == '/';
        assert(x <= k < y);
        assert(trimmed(name@)[k - x] == '/');
        assert(has_separator(trimmed(name@)));
    }
    crate::strings::lemma_blank(name@);
}

/// An entry of a project is deleted where it lies below the project. The project itself
/// and what lies elsewhere stay.
pub proof fn lemma_only_entries_are_deleted(
    before: App,
    after: App,
    work: Work,
    project: Project,
    folder: Seq<char>,
    name: Seq<char>,
    path: String,
)
    requires
        entry_delete(before, after, work, path),
        before.project.active == Some(project),
        plain_folder(folder),
        entry_name(name),
    ensures
        path@ == folder + seq!['/'] + name && inside(folder, project.path@) ==> after == before
            && work == Work::DeleteEntry(path),
        path@ == project.path@ ==> work is Nothing && after.project == before.project,
        path@ == folder && project.path@ == folder + seq!['/'] + name ==> work is Nothing
            && after.project == before.project,
        forall|other: Seq<char>|
            path@ == folder + seq!['/'] + name && project.path@ == #[trigger] (folder + seq!['/']
                + other) && entry_name(other) && other != name ==> work is Nothing && after.project
                == before.project,
{
    crate::paths::lemma_entry_is_inside(folder, name, name);
    crate::paths::lemma_entry_of_folder(folder, name, name);
    if path@ == folder + seq!['/'] + name && inside(folder, project.path@) {
        crate::paths::lemma_inside(path@, folder, project.path@);
        let a = crate::paths::components(folder);
        let b = crate::paths::components(path@);
        assert(b.len() == a.len() + 1);
        assert(crate::paths::components(project.path@).len() <= a.len());
    }
    assert forall|other: Seq<char>|
        path@ == folder + seq!['/'] + name && project.path@ == #[trigger] (folder + seq!['/']
            + other) && entry_name(other) && other != name implies work is Nothing && after.project
        == before.project by {
        crate::paths::lemma_entry_is_inside(folder, name, other);
    }
}

/// A new entry is created in the folder that is shown, under the name that was typed. A
/// slash at its end asks for a folder. A path that leads out of the project is refused.
pub proof fn lemma_entry_is_created_where_shown(
    before: App,
    after: App,
    work: Work,
    project: Project,
    n: Seq<char>,
    name: String,
)
    requires
        entry_create(before, after, work, name),
        before.project.active == Some(project),
        entry_name(n),
        !whitespace(n[0]),
        !whitespace(n.last()),
        !whitespace('/'),
    ensures
        name@ == n || name@ == n + seq!['/'] ==> {
            &&& after == before
            &&& work matches Work::CreateEntry { folder, entry, name: typed } && typed == name
                && entry.relative@ == n && (entry.is_directory <==> name@ != n) && (
            match before.project.tree_dir {
                Some(dir) => folder@ == dir@,
                None => folder@ == project.path@,
            })
        },
        name@ == seq!['/'] + n || name@ == seq!['.', '.', '/'] + n ==> work is Nothing
            && after.project == before.project,
{
    crate::strings::lemma_trimmed_same(n);
    let dir = n + seq!['/'];
    assert(dir[0] == n[0] && dir.last() == '/');
    crate::strings::lemma_trimmed_same(dir);
    assert(dir.drop_last() =~= n);
    assert(n.last() != '/');
    assert(without_slashes(n) == n);
    assert(without_slashes(dir) == n);
    crate::paths::lemma_paths_that_lead_out_are_refused(Seq::empty(), Seq::empty(), n, n);
    let root = seq!['/'] + n;
    assert(root[0] == '/' && root.last() == n.last());
    crate::strings::lemma_trimmed_same(root);
    assert(without_slashes(root) == root);
    crate::paths::lemma_paths_that_lead_out_are_refused(Seq::empty(), n, n, n);
    let up = seq!['.', '.', '/'] + n;
    assert(up.last() == n.last());
    crate::paths::lemma_paths_that_lead_out_are_refused(Seq::empty(), root, n, n);
    assert(Seq::<char>::empty() + seq!['.', '.'] + root =~= up);
    let (x, y) = crate::strings::lemma_trimmed_between(up);
    assert(y == up.len()) by {
        if y < up.len() {
            assert(whitespace(up[up.len() - 1]));
        }
    }
    if x == 0 {
        assert(up.subrange(0, up.len() as int) =~= up);
        assert(without_slashes(up) == up);
    } else if whitespace('.') {
        assert(!whitespace(up[2]));
        assert(x <= 2);
        assert(up[0] == '.' && up[1] == '.');
        assert(x == 2) by {
            if x == 1 {
                assert(!whitespace(up[1]));
            }
        }
        assert(up.subrange(2, up.len() as int) =~= root);
    } else {
        assert(whitespace(up[0]));
    }
}

/// The time that a document was read is told in full seconds. Where it was not timed,
/// nothing is told.
pub proof fn lemma_reading_time_is_told(app: App, now: u64)
    ensures
        match session_length(app, now) {
            Some((id, seconds)) => app.session_id == Some(id) && app.session_start is Some && if now
                >= app.session_start->0 {
                1000 * seconds <= now - app.session_start->0 < 1000 * (seconds + 1)
            } else {
                seconds == 0
            },
            None => app.session_id is None || app.session_start is None,
        },
{
}

/// A download opens the file of its paper in the library, else its own, else the one in
/// the folder of downloads that bears its identifier.
pub proof fn lemma_download_opens_its_file(
    app: App,
    k: int,
    j: int,
    id: Seq<char>,
    directory: Seq<char>,
)
    requires
        0 <= k < app.downloads.tasks@.len(),
        app.downloads.tasks@[k].id@ == id,
        forall|i: int| 0 <= i < k ==> (#[trigger] app.downloads.tasks@[i]).id@ != id,
        plain_folder(directory),
        entry_name(id),
    ensures
        ({
            let task = app.downloads.tasks@[k];
            let papers = app.library.papers@;
            let (paper_id, path) = download_file(app, id, directory);
            &&& paper_id == task.paper_id
            &&& 0 <= j < papers.len() && task.paper_id == Some(papers[j].id) && (forall|i: int|
                0 <= i < j ==> (#[trigger] papers[i]).id != papers[j].id) && papers[j].pdf_path is Some
                ==> path == papers[j].pdf_path->0@
            &&& task.paper_id is None && task.pdf_path is Some ==> path == task.pdf_path->0@
            &&& task.paper_id is None && task.pdf_path is None ==> path == directory + seq!['/'] + (
            id + seq!['.', 'p', 'd', 'f'])
        }),
{
    crate::downloads::lemma_report_finds_its_download(app.downloads.tasks@, id);
    let papers = app.library.papers@;
    if 0 <= j < papers.len() && (forall|i: int|
        0 <= i < j ==> (#[trigger] papers[i]).id != papers[j].id) {
        lemma_paper_at(papers, papers[j].id, 0, j);
    }
    reveal_strlit(".pdf");
    assert(".pdf"@ =~= seq!['.', 'p', 'd', 'f']);
    assert(id[0] != '/');
    let name = id + ".pdf"@;
    assert(name[0] == id[0]);
    assert(directory.push('/') =~= directory + seq!['/']);
}

proof fn lemma_paper_at(papers: Seq<LibraryPaper>, id: i64, i: int, j: int)
    requires
        0 <= i <= j < papers.len(),
        papers[j].id == id,
        forall|k: int| i <= k < j ==> (#[trigger] papers[k]).id != id,
    ensures
        paper_with_id(papers, id, i) == Some(papers[j]),
    decreases j - i,
{
    if i < j {
        assert(papers[i].id != id);
        lemma_paper_at(papers, id, i + 1, j);
    }
}

/// A search starts anew: nothing of the one before is left, and a late answer to it is
/// told apart.
pub proof fn lemma_search_starts_anew(before: App, after: App, work: Work, query: String)
    requires
        search_started(before, after, work, query),
    ensures
        after.discovery.results@.len() == 0,
        after.discovery.filter@.len() == 0,
        after.discovery.page == 0 && after.discovery.selected == 0 && after.discovery.scroll == 0,
        after.discovery.status is Loading,
        after.discovery.next_batch_start is None,
        after.discovery.request_id != before.discovery.request_id,
        after.library == before.library && after.downloads == before.downloads && after.project
            == before.project,
        work matches Work::Search(fetch) && fetch.query@ == query@ && fetch.request_id
            == after.discovery.request_id && fetch.start == 0 && fetch.papers@.len() == 0,
{
}

} // verus!
