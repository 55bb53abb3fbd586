//! Keys of the sections that list papers.

use crate::action::{act, ActionView, PaperTarget, TargetView, UiAction};
use crate::arxiv::{arxiv_page_url, page_url};
use crate::keys::{KeyCode, KeyEvent};
use crate::model::{
    copy_opt, App, AppMode, BookmarkSummary, CollectionSearchItem, CollectionSummary,
    CollectionsState, AuthorsState, DownloadStatus, DownloadTask, LibraryPaper, Page, RemotePaper,
};
use crate::rows::{
    filtered_authors, filtered_bookmarks, filtered_downloads, filtered_papers, nth_marked, row,
    shown_authors, shown_bookmarks, shown_downloads, shown_papers,
};
use crate::strings::{opt_text, same_text};
use vstd::prelude::*;

verus! {

/// The `k`-th paper that a local search shows.
pub open spec fn nth_paper(papers: Seq<LibraryPaper>, query: Seq<char>, k: int) -> Option<
    LibraryPaper,
> {
    match row(shown_papers(papers, query), k) {
        Some(i) => Some(papers[i]),
        None => None,
    }
}

/// The `k`-th paper that a local search shows.
pub fn shown_paper<'a>(papers: &'a Vec<LibraryPaper>, query: &str, k: usize) -> (r: Option<
    &'a LibraryPaper,
>)
    ensures
        r is Some <==> nth_paper(papers@, query@, k as int) is Some,
        r matches Some(p) ==> nth_paper(papers@, query@, k as int) == Some(*p),
{
    let keep = filtered_papers(papers, query);
    match nth_marked(&keep, k) {
        Some(i) => Some(&papers[i]),
        None => None,
    }
}

/// The selected row of the groups while none of them is open.
pub open spec fn group_row(app: App) -> Option<CollectionSearchItem> {
    let k = app.collections.selected as int;
    if app.search.query@.len() == 0 {
        if k < app.collections.items@.len() {
            Some(CollectionSearchItem::Collection(app.collections.items@[k]))
        } else {
            None
        }
    } else if k < app.collections.found@.len() {
        Some(app.collections.found@[k])
    } else {
        None
    }
}

/// The selected download.
pub open spec fn selected_download(app: App) -> Option<DownloadTask> {
    match row(
        shown_downloads(app.downloads.tasks@, app.search.query@),
        app.downloads.selected as int,
    ) {
        Some(i) => Some(app.downloads.tasks@[i]),
        None => None,
    }
}

/// The selected bookmark.
pub open spec fn selected_bookmark(app: App) -> Option<BookmarkSummary> {
    match row(
        shown_bookmarks(app.bookmarks.items@, app.search.query@),
        app.bookmarks.selected as int,
    ) {
        Some(i) => Some(app.bookmarks.items@[i]),
        None => None,
    }
}

/// The first paper from position `i` on that has an id.
pub open spec fn paper_with_id(papers: Seq<LibraryPaper>, id: i64, i: int) -> Option<LibraryPaper>
    decreases papers.len() - i,
{
    if i >= papers.len() {
        None
    } else if papers[i].id == id {
        Some(papers[i])
    } else {
        paper_with_id(papers, id, i + 1)
    }
}

/// Whether a paper is stored in the file of a download.
pub open spec fn is_file_of(paper: LibraryPaper, task: DownloadTask) -> bool {
    opt_text(paper.pdf_path) == opt_text(task.pdf_path) || task.linked_paper == Some(paper.id)
}

/// The first paper from position `i` on that is stored in a download's file.
pub open spec fn paper_of_file(papers: Seq<LibraryPaper>, task: DownloadTask, i: int) -> Option<i64>
    decreases papers.len() - i,
{
    if i >= papers.len() {
        None
    } else if is_file_of(papers[i], task) {
        Some(papers[i].id)
    } else {
        paper_of_file(papers, task, i + 1)
    }
}

/// The paper of the library that a download has become.
pub open spec fn download_paper(papers: Seq<LibraryPaper>, task: DownloadTask) -> Option<i64> {
    if task.paper_id is Some {
        task.paper_id
    } else if task.pdf_path is Some {
        paper_of_file(papers, task, 0)
    } else {
        None
    }
}

/// The id of a paper that may be missing.
pub open spec fn id_of(p: Option<LibraryPaper>) -> Option<i64> {
    match p {
        Some(q) => Some(q.id),
        None => None,
    }
}

/// The paper of the library whose row is selected.
pub open spec fn local_paper_id(app: App) -> Option<i64> {
    let query = app.search.query@;
    match app.page {
        Page::Library => id_of(nth_paper(app.library.papers@, query, app.library.selected as int)),
        Page::Downloads => match selected_download(app) {
            Some(task) => download_paper(app.library.papers@, task),
            None => None,
        },
        Page::Collections => if app.collections.active is Some {
            id_of(
                nth_paper(app.collections.papers@, query, app.collections.paper_selected as int),
            )
        } else {
            match group_row(app) {
                Some(CollectionSearchItem::Paper(paper, _)) => Some(paper.id),
                _ => None,
            }
        },
        Page::Authors => if app.authors.active is Some {
            id_of(nth_paper(app.authors.papers@, query, app.authors.paper_selected as int))
        } else {
            None
        },
        Page::Bookmarks => match selected_bookmark(app) {
            Some(bookmark) => Some(bookmark.paper_id),
            None => None,
        },
        Page::Notes => id_of(nth_paper(app.notes.papers@, query, app.notes.selected as int)),
        Page::ReadingQueue => id_of(
            nth_paper(app.queue.papers@, query, app.queue.selected as int),
        ),
        _ => None,
    }
}

/// The online paper whose row is selected.
pub open spec fn remote_paper(app: App) -> Option<RemotePaper> {
    if app.page == Page::Dashboard {
        if app.today.selected < app.today.papers@.len() {
            Some(app.today.papers@[app.today.selected as int])
        } else {
            None
        }
    } else {
        match app.discovery.selected_position() {
            Some(i) => Some(app.discovery.results@[i]),
            None => None,
        }
    }
}

/// The arXiv reference of a paper of the library.
pub open spec fn local_reference(papers: Seq<LibraryPaper>, id: i64) -> Option<Seq<char>> {
    match paper_with_id(papers, id, 0) {
        Some(p) => opt_text(p.arxiv_id),
        None => None,
    }
}

/// The arXiv reference of the selected row: missing on the outside where the
/// row is no paper, on the inside where the paper has none.
pub open spec fn arxiv_reference(app: App) -> Option<Option<Seq<char>>> {
    match app.page {
        Page::Dashboard | Page::Discover => match remote_paper(app) {
            Some(p) => Some(Some(p.id@)),
            None => None,
        },
        Page::Downloads => match selected_download(app) {
            Some(task) => Some(
                match task.remote_paper {
                    Some(p) => Some(p.id@),
                    None => match local_paper_id(app) {
                        Some(id) => local_reference(app.library.papers@, id),
                        None => None,
                    },
                },
            ),
            None => None,
        },
        Page::Library | Page::ReadingQueue | Page::Collections | Page::Bookmarks | Page::Authors
        | Page::Notes => match local_paper_id(app) {
            Some(id) => Some(local_reference(app.library.papers@, id)),
            None => None,
        },
        _ => None,
    }
}

/// Whether a key opens the selected row.
pub open spec fn opens(code: KeyCode) -> bool {
    code == KeyCode::Enter || code == KeyCode::Right || code == KeyCode::Char('l')
}

/// What a key does with a paper of the library, apart from opening it.
pub open spec fn paper_action(p: LibraryPaper, code: KeyCode) -> Option<ActionView> {
    match code {
        KeyCode::Char(c) => if c == 'B' {
            Some(ActionView::Bookmark(TargetView::Local(p.id)))
        } else if c == 'c' {
            Some(ActionView::CopyCitation(TargetView::Local(p.id)))
        } else if c == 'R' {
            Some(ActionView::RenamePdf(p.id))
        } else if c == 'g' {
            Some(ActionView::Prompt(TargetView::Local(p.id)))
        } else if c == 'n' {
            Some(ActionView::OpenNote(TargetView::Local(p.id)))
        } else if c == 'x' {
            Some(
                ActionView::ConfirmDeletePaper {
                    paper_id: p.id,
                    title: p.title@,
                    path: opt_text(p.pdf_path),
                },
            )
        } else {
            None
        },
        _ => None,
    }
}

/// Opening the file of a paper, where it has one.
pub open spec fn open_action(p: LibraryPaper) -> Option<ActionView> {
    match p.pdf_path {
        Some(path) => Some(ActionView::OpenPdf { paper_id: p.id, path: path@ }),
        None => None,
    }
}

/// Whether a key is one of those that act on a paper.
pub open spec fn paper_key(code: KeyCode) -> bool {
    match code {
        KeyCode::Char(c) => c == 'B' || c == 'c' || c == 'R' || c == 'g' || c == 'n' || c == 'x',
        _ => false,
    }
}

/// Told to the user when a paper has no file.
pub open spec fn no_pdf() -> Seq<char> {
    "This paper has no local PDF to open"@
}

/// Told to the user when a paper has no page.
pub open spec fn no_page() -> Seq<char> {
    "No valid arXiv page is available for this paper"@
}

/// Nothing has changed but the message to the user.
pub open spec fn only_toast(before: App, after: App, message: Seq<char>) -> bool {
    &&& after == App { toast: after.toast, ..before }
    &&& opt_text(after.toast) == Some(message)
}

fn local_action(p: &LibraryPaper, code: KeyCode) -> (r: Option<UiAction>)
    ensures
        act(r) == paper_action(*p, code),
{
    match code {
        KeyCode::Char('B') => Some(UiAction::Bookmark(PaperTarget::Local(p.id))),
        KeyCode::Char('c') => Some(UiAction::CopyCitation(PaperTarget::Local(p.id))),
        KeyCode::Char('R') => Some(UiAction::RenamePdf(p.id)),
        KeyCode::Char('g') => Some(UiAction::Prompt(PaperTarget::Local(p.id))),
        KeyCode::Char('n') => Some(UiAction::OpenNote(PaperTarget::Local(p.id))),
        KeyCode::Char('x') => Some(
            UiAction::ConfirmDeletePaper {
                paper_id: p.id,
                title: p.title.clone(),
                path: copy_opt(&p.pdf_path),
            },
        ),
        _ => None,
    }
}

fn open_local(p: &LibraryPaper) -> (r: Option<UiAction>)
    ensures
        act(r) == open_action(*p),
{
    match &p.pdf_path {
        Some(path) => Some(UiAction::OpenPdf { paper_id: p.id, path: path.clone() }),
        None => None,
    }
}

fn opens_row(code: KeyCode) -> (r: bool)
    ensures
        r == opens(code),
{
    matches!(code, KeyCode::Enter | KeyCode::Right | KeyCode::Char('l'))
}

fn is_paper_key(code: KeyCode) -> (r: bool)
    ensures
        r == paper_key(code),
{
    matches!(code, KeyCode::Char('B' | 'c' | 'R' | 'g' | 'n' | 'x'))
}

pub(crate) fn find_paper(papers: &Vec<LibraryPaper>, id: i64) -> (r: Option<&LibraryPaper>)
    ensures
        r is Some <==> paper_with_id(papers@, id, 0) is Some,
        r matches Some(p) ==> paper_with_id(papers@, id, 0) == Some(*p),
{
    let mut i: usize = 0;
    while i < papers.len()
        invariant
            i <= papers@.len(),
            paper_with_id(papers@, id, 0) == paper_with_id(papers@, id, i as int),
        decreases papers@.len() - i,
    {
        if papers[i].id == id {
            return Some(&papers[i]);
        }
        i = i + 1;
    }
    None
}

fn same_path(a: &Option<String>, b: &Option<String>) -> (r: bool)
    ensures
        r == (opt_text(*a) == opt_text(*b)),
{
    match a {
        Some(x) => match b {
            Some(y) => same_text(x.as_str(), y.as_str()),
            None => false,
        },
        None => b.is_none(),
    }
}

fn find_file(papers: &Vec<LibraryPaper>, task: &DownloadTask) -> (r: Option<i64>)
    ensures
        r == paper_of_file(papers@, *task, 0),
{
    let mut i: usize = 0;
    while i < papers.len()
        invariant
            i <= papers@.len(),
            paper_of_file(papers@, *task, 0) == paper_of_file(papers@, *task, i as int),
        decreases papers@.len() - i,
    {
        let linked: bool = match task.linked_paper {
            Some(id) => id == papers[i].id,
            None => false,
        };
        if linked || same_path(&papers[i].pdf_path, &task.pdf_path) {
            return Some(papers[i].id);
        }
        i = i + 1;
    }
    None
}

/// The paper of the library that a download has become.
pub fn paper_of_download(papers: &Vec<LibraryPaper>, task: &DownloadTask) -> (r: Option<i64>)
    ensures
        r == download_paper(papers@, *task),
{
    if task.paper_id.is_some() {
        task.paper_id
    } else if task.pdf_path.is_some() {
        find_file(papers, task)
    } else {
        None
    }
}

pub(crate) fn current_download(app: &App) -> (r: Option<&DownloadTask>)
    ensures
        r is Some <==> selected_download(*app) is Some,
        r matches Some(t) ==> selected_download(*app) == Some(*t),
{
    let keep = filtered_downloads(&app.downloads.tasks, app.search.query.as_str());
    match nth_marked(&keep, app.downloads.selected) {
        Some(i) => Some(&app.downloads.tasks[i]),
        None => None,
    }
}

fn current_bookmark(app: &App) -> (r: Option<&BookmarkSummary>)
    ensures
        r is Some <==> selected_bookmark(*app) is Some,
        r matches Some(t) ==> selected_bookmark(*app) == Some(*t),
{
    let keep = filtered_bookmarks(&app.bookmarks.items, app.search.query.as_str());
    match nth_marked(&keep, app.bookmarks.selected) {
        Some(i) => Some(&app.bookmarks.items[i]),
        None => None,
    }
}

fn id_at(papers: &Vec<LibraryPaper>, query: &str, k: usize) -> (r: Option<i64>)
    ensures
        r == id_of(nth_paper(papers@, query@, k as int)),
{
    match shown_paper(papers, query, k) {
        Some(p) => Some(p.id),
        None => None,
    }
}

/// The paper of the library whose row is selected.
pub fn selected_local_paper_id(app: &App) -> (r: Option<i64>)
    ensures
        r == local_paper_id(*app),
{
    let query: &str = app.search.query.as_str();
    match app.page {
        Page::Library => id_at(&app.library.papers, query, app.library.selected),
        Page::Downloads => match current_download(app) {
            Some(task) => paper_of_download(&app.library.papers, task),
            None => None,
        },
        Page::Collections => {
            if app.collections.active.is_some() {
                id_at(&app.collections.papers, query, app.collections.paper_selected)
            } else if query.is_empty() {
                None
            } else if app.collections.selected < app.collections.found.len() {
                match &app.collections.found[app.collections.selected] {
                    CollectionSearchItem::Paper(paper, _) => Some(paper.id),
                    CollectionSearchItem::Collection(_) => None,
                }
            } else {
                None
            }
        },
        Page::Authors => {
            if app.authors.active.is_some() {
                id_at(&app.authors.papers, query, app.authors.paper_selected)
            } else {
                None
            }
        },
        Page::Bookmarks => match current_bookmark(app) {
            Some(bookmark) => Some(bookmark.paper_id),
            None => None,
        },
        Page::Notes => id_at(&app.notes.papers, query, app.notes.selected),
        Page::ReadingQueue => id_at(&app.queue.papers, query, app.queue.selected),
        _ => None,
    }
}

/// The online paper whose row is selected.
pub fn selected_remote_paper(app: &App) -> (r: Option<&RemotePaper>)
    ensures
        r is Some <==> remote_paper(*app) is Some,
        r matches Some(p) ==> remote_paper(*app) == Some(*p),
{
    if app.page == Page::Dashboard {
        if app.today.selected < app.today.papers.len() {
            Some(&app.today.papers[app.today.selected])
        } else {
            None
        }
    } else {
        app.discovery.selected_paper()
    }
}

/// The online paper whose row is selected, as the target of an action.
pub open spec fn remote_target(app: App) -> Option<TargetView> {
    match remote_paper(app) {
        Some(p) => Some(TargetView::Remote(p@)),
        None => None,
    }
}

/// The online paper whose row is selected, as the target of an action.
pub fn selected_remote_target(app: &App) -> (r: Option<PaperTarget>)
    ensures
        r is Some <==> remote_target(*app) is Some,
        r matches Some(t) ==> remote_target(*app) == Some(t@),
{
    match selected_remote_paper(app) {
        Some(p) => Some(PaperTarget::Remote(p.copy())),
        None => None,
    }
}

fn reference_of(papers: &Vec<LibraryPaper>, id: Option<i64>) -> (r: Option<String>)
    ensures
        opt_text(r) == (match id {
            Some(i) => local_reference(papers@, i),
            None => None,
        }),
{
    match id {
        Some(i) => match find_paper(papers, i) {
            Some(p) => copy_opt(&p.arxiv_id),
            None => None,
        },
        None => None,
    }
}

/// The arXiv reference of the selected row.
pub fn selected_paper_arxiv_reference(app: &App) -> (r: Option<Option<String>>)
    ensures
        r is Some <==> arxiv_reference(*app) is Some,
        r matches Some(s) ==> arxiv_reference(*app) == Some(opt_text(s)),
{
    match app.page {
        Page::Dashboard | Page::Discover => match selected_remote_paper(app) {
            Some(p) => Some(Some(p.id.clone())),
            None => None,
        },
        Page::Downloads => match current_download(app) {
            Some(task) => match &task.remote_paper {
                Some(p) => Some(Some(p.id.clone())),
                None => Some(reference_of(&app.library.papers, selected_local_paper_id(app))),
            },
            None => None,
        },
        Page::Library | Page::ReadingQueue | Page::Collections | Page::Bookmarks | Page::Authors
        | Page::Notes => match selected_local_paper_id(app) {
            Some(id) => Some(reference_of(&app.library.papers, Some(id))),
            None => None,
        },
        _ => None,
    }
}

/// The page of a reference that may be missing.
pub open spec fn opt_url(reference: Option<Seq<char>>) -> Option<Seq<char>> {
    match reference {
        Some(r) => page_url(r),
        None => None,
    }
}

/// Opens the page of a reference, or tells that there is none.
pub fn open_arxiv_page(app: &mut App, reference: Option<String>) -> (r: Option<UiAction>)
    ensures
        match opt_url(opt_text(reference)) {
            Some(url) => act(r) == Some(ActionView::OpenBrowser(url)) && *final(app) == *old(app),
            None => r is None && only_toast(*old(app), *final(app), no_page()),
        },
{
    let url: Option<String> = match reference {
        Some(s) => arxiv_page_url(s.as_str()),
        None => None,
    };
    match url {
        Some(u) => Some(UiAction::OpenBrowser(u)),
        None => {
            app.toast = Some("No valid arXiv page is available for this paper".to_owned());
            None
        },
    }
}

/// What became of a key that only some sections take.
#[derive(Debug)]
pub enum KeyHandling {
    Ignored,
    Handled(Option<UiAction>),
}

/// Opens the selected paper of the dashboard.
pub fn handle_dashboard_key(app: &App, key: KeyEvent) -> (r: KeyHandling)
    ensures
        match r {
            KeyHandling::Ignored => app.page != Page::Dashboard || !opens(key.code),
            KeyHandling::Handled(a) => app.page == Page::Dashboard && opens(key.code) && act(a)
                == (match remote_paper(*app) {
                Some(p) => Some(ActionView::OpenPaper(p@)),
                None => None,
            }),
        },
{
    if app.page != Page::Dashboard || !opens_row(key.code) {
        return KeyHandling::Ignored;
    }
    match selected_remote_paper(app) {
        Some(p) => KeyHandling::Handled(Some(UiAction::OpenPaper(p.copy()))),
        None => KeyHandling::Handled(None),
    }
}

/// Whether a key closes the open group or author.
pub open spec fn closes(code: KeyCode) -> bool {
    code == KeyCode::Esc || code == KeyCode::Char('h')
}

/// Whether the papers of an open group or author take a key.
pub open spec fn member_key(code: KeyCode) -> bool {
    closes(code) || opens(code) || paper_key(code)
}

/// What a key does with the selected paper of an open group or author.
pub open spec fn member_action(p: Option<LibraryPaper>, code: KeyCode) -> Option<ActionView> {
    match p {
        Some(paper) => if opens(code) {
            open_action(paper)
        } else {
            paper_action(paper, code)
        },
        None => None,
    }
}

/// Whether a key tells that the selected paper has no file.
pub open spec fn misses_pdf(p: Option<LibraryPaper>, code: KeyCode) -> bool {
    opens(code) && p is Some && p->0.pdf_path is None
}

/// The selected paper of the open group.
pub open spec fn group_paper(app: App) -> Option<LibraryPaper> {
    nth_paper(app.collections.papers@, app.search.query@, app.collections.paper_selected as int)
}

/// Whether the groups take a key.
pub open spec fn collection_handled(app: App, code: KeyCode) -> bool {
    if app.collections.active is Some {
        member_key(code)
    } else {
        ||| code == KeyCode::Char('g')
        ||| match group_row(app) {
            Some(CollectionSearchItem::Collection(_)) => opens(code) || code == KeyCode::Char('R')
                || code == KeyCode::Char('x'),
            Some(CollectionSearchItem::Paper(_, _)) => opens(code) || paper_key(code),
            None => false,
        }
    }
}

/// What a key in the groups asks for.
pub open spec fn collection_action(app: App, code: KeyCode) -> Option<ActionView> {
    if app.collections.active is Some {
        if closes(code) {
            None
        } else {
            member_action(group_paper(app), code)
        }
    } else {
        match group_row(app) {
            Some(CollectionSearchItem::Collection(c)) => if opens(code) {
                Some(ActionView::OpenCollection(c.id))
            } else if code == KeyCode::Char('R') {
                Some(ActionView::RenameCollection(c.id))
            } else if code == KeyCode::Char('x') {
                Some(
                    ActionView::ConfirmDeleteCollection {
                        collection_id: c.id,
                        name: c.name@,
                        path: opt_text(c.folder_path),
                    },
                )
            } else if code == KeyCode::Char('g') {
                Some(ActionView::CreateCollection)
            } else {
                None
            },
            Some(CollectionSearchItem::Paper(p, _)) => member_action(Some(p), code),
            None => if code == KeyCode::Char('g') {
                Some(ActionView::CreateCollection)
            } else {
                None
            },
        }
    }
}

/// What a key changes in the groups.
pub open spec fn collection_after(before: App, after: App, code: KeyCode) -> bool {
    if before.collections.active is Some && closes(code) {
        &&& after == App {
            collections: CollectionsState {
                active: None,
                papers: after.collections.papers,
                ..before.collections
            },
            ..before
        }
        &&& after.collections.papers@.len() == 0
    } else if before.collections.active is Some && misses_pdf(group_paper(before), code) {
        only_toast(before, after, no_pdf())
    } else if before.collections.active is None && (group_row(before) matches Some(
        CollectionSearchItem::Paper(p, _),
    ) && misses_pdf(Some(p), code)) {
        only_toast(before, after, no_pdf())
    } else {
        after == before
    }
}

/// Keys of the groups workspace: whether the key was taken, and what it asks for.
pub fn handle_collection_key(app: &mut App, key: KeyEvent) -> (r: (bool, Option<UiAction>))
    ensures
        r.0 == collection_handled(*old(app), key.code),
        act(r.1) == collection_action(*old(app), key.code),
        collection_after(*old(app), *final(app), key.code),
{
    if app.collections.active.is_some() {
        if matches!(key.code, KeyCode::Esc | KeyCode::Char('h')) {
            app.collections.active = None;
            app.collections.papers = Vec::new();
            return (true, None);
        }
        if !opens_row(key.code) && !is_paper_key(key.code) {
            return (false, None);
        }
        let mut missing: bool = false;
        let action: Option<UiAction> = match shown_paper(
            &app.collections.papers,
            app.search.query.as_str(),
            app.collections.paper_selected,
        ) {
            Some(p) => {
                if opens_row(key.code) {
                    missing = p.pdf_path.is_none();
                    open_local(p)
                } else {
                    local_action(p, key.code)
                }
            },
            None => None,
        };
        if missing {
            app.toast = Some("This paper has no local PDF to open".to_owned());
        }
        return (true, action);
    }
    let k: usize = app.collections.selected;
    let mut missing: bool = false;
    let mut handled: bool = false;
    let mut action: Option<UiAction> = None;
    if app.search.query.as_str().is_empty() {
        if k < app.collections.items.len() {
            let collection: &CollectionSummary = &app.collections.items[k];
            handled = group_key(collection, key.code);
            action = group_action(collection, key.code);
        }
    } else if k < app.collections.found.len() {
        match &app.collections.found[k] {
            CollectionSearchItem::Collection(collection) => {
                handled = group_key(collection, key.code);
                action = group_action(collection, key.code);
            },
            CollectionSearchItem::Paper(paper, _) => {
                if opens_row(key.code) {
                    missing = paper.pdf_path.is_none();
                    handled = true;
                    action = open_local(paper);
                } else if is_paper_key(key.code) {
                    handled = true;
                    action = local_action(paper, key.code);
                }
            },
        }
    }
    if missing {
        app.toast = Some("This paper has no local PDF to open".to_owned());
    }
    if handled {
        return (true, action);
    }
    if matches!(key.code, KeyCode::Char('g')) {
        return (true, Some(UiAction::CreateCollection));
    }
    (false, None)
}

fn group_key(collection: &CollectionSummary, code: KeyCode) -> (r: bool)
    ensures
        r == (opens(code) || code == KeyCode::Char('R') || code == KeyCode::Char('x')),
{
    opens_row(code) || matches!(code, KeyCode::Char('R' | 'x'))
}

fn group_action(collection: &CollectionSummary, code: KeyCode) -> (r: Option<UiAction>)
    ensures
        act(r) == (if opens(code) {
            Some(ActionView::OpenCollection(collection.id))
        } else if code == KeyCode::Char('R') {
            Some(ActionView::RenameCollection(collection.id))
        } else if code == KeyCode::Char('x') {
            Some(
                ActionView::ConfirmDeleteCollection {
                    collection_id: collection.id,
                    name: collection.name@,
                    path: opt_text(collection.folder_path),
                },
            )
        } else {
            None
        }),
{
    if opens_row(code) {
        return Some(UiAction::OpenCollection(collection.id));
    }
    match code {
        KeyCode::Char('R') => Some(UiAction::RenameCollection(collection.id)),
        KeyCode::Char('x') => Some(
            UiAction::ConfirmDeleteCollection {
                collection_id: collection.id,
                name: collection.name.clone(),
                path: copy_opt(&collection.folder_path),
            },
        ),
        _ => None,
    }
}

/// The selected paper of the open author.
pub open spec fn author_paper(app: App) -> Option<LibraryPaper> {
    nth_paper(app.authors.papers@, app.search.query@, app.authors.paper_selected as int)
}

/// Whether the authors take a key.
pub open spec fn author_handled(app: App, code: KeyCode) -> bool {
    if app.authors.active is Some {
        member_key(code)
    } else {
        opens(code)
    }
}

/// What a key in the authors asks for.
pub open spec fn author_action(app: App, code: KeyCode) -> Option<ActionView> {
    if app.authors.active is Some {
        if closes(code) {
            None
        } else {
            member_action(author_paper(app), code)
        }
    } else if opens(code) {
        match row(
            shown_authors(app.authors.items@, app.search.query@),
            app.authors.selected as int,
        ) {
            Some(i) => Some(ActionView::OpenAuthor(app.authors.items@[i].id)),
            None => None,
        }
    } else {
        None
    }
}

/// What a key changes in the authors.
pub open spec fn author_after(before: App, after: App, code: KeyCode) -> bool {
    if before.authors.active is Some && closes(code) {
        &&& after == App {
            authors: AuthorsState { active: None, papers: after.authors.papers, ..before.authors },
            ..before
        }
        &&& after.authors.papers@.len() == 0
    } else if before.authors.active is Some && misses_pdf(author_paper(before), code) {
        only_toast(before, after, no_pdf())
    } else {
        after == before
    }
}

/// Keys of the authors workspace: whether the key was taken, and what it asks for.
pub fn handle_author_key(app: &mut App, key: KeyEvent) -> (r: (bool, Option<UiAction>))
    ensures
        r.0 == author_handled(*old(app), key.code),
        act(r.1) == author_action(*old(app), key.code),
        author_after(*old(app), *final(app), key.code),
{
    if app.authors.active.is_some() {
        if matches!(key.code, KeyCode::Esc | KeyCode::Char('h')) {
            app.authors.active = None;
            app.authors.papers = Vec::new();
            return (true, None);
        }
        if !opens_row(key.code) && !is_paper_key(key.code) {
            return (false, None);
        }
        let mut missing: bool = false;
        let action: Option<UiAction> = match shown_paper(
            &app.authors.papers,
            app.search.query.as_str(),
            app.authors.paper_selected,
        ) {
            Some(p) => {
                if opens_row(key.code) {
                    missing = p.pdf_path.is_none();
                    open_local(p)
                } else {
                    local_action(p, key.code)
                }
            },
            None => None,
        };
        if missing {
            app.toast = Some("This paper has no local PDF to open".to_owned());
        }
        return (true, action);
    }
    if !opens_row(key.code) {
        return (false, None);
    }
    let keep = filtered_authors(&app.authors.items, app.search.query.as_str());
    match nth_marked(&keep, app.authors.selected) {
        Some(i) => (true, Some(UiAction::OpenAuthor(app.authors.items[i].id))),
        None => (true, None),
    }
}

/// What a key does with the selected bookmark.
pub open spec fn bookmark_result(app: App, code: KeyCode) -> Option<ActionView> {
    if app.page != Page::Bookmarks {
        None
    } else {
        match selected_bookmark(app) {
            None => None,
            Some(b) => if opens(code) {
                Some(ActionView::OpenPdf { paper_id: b.paper_id, path: b.pdf_path@ })
            } else {
                match code {
                    KeyCode::Char(c) => if c == 'B' {
                        Some(ActionView::Bookmark(TargetView::Local(b.paper_id)))
                    } else if c == 'c' {
                        Some(ActionView::CopyCitation(TargetView::Local(b.paper_id)))
                    } else if c == 'n' {
                        Some(ActionView::OpenNote(TargetView::Local(b.paper_id)))
                    } else if c == 'g' {
                        Some(ActionView::Prompt(TargetView::Local(b.paper_id)))
                    } else if c == 'R' {
                        Some(ActionView::RenamePdf(b.paper_id))
                    } else if c == 'x' {
                        Some(
                            ActionView::ConfirmDeletePaper {
                                paper_id: b.paper_id,
                                title: b.paper_title@,
                                path: Some(b.pdf_path@),
                            },
                        )
                    } else {
                        None
                    },
                    _ => None,
                }
            },
        }
    }
}

/// What a key does with the selected bookmark.
pub fn bookmark_action(app: &App, key: KeyEvent) -> (r: Option<UiAction>)
    ensures
        act(r) == bookmark_result(*app, key.code),
{
    if app.page != Page::Bookmarks {
        return None;
    }
    match current_bookmark(app) {
        None => None,
        Some(b) => {
            if opens_row(key.code) {
                return Some(
                    UiAction::OpenPdf { paper_id: b.paper_id, path: b.pdf_path.clone() },
                );
            }
            match key.code {
                KeyCode::Char('B') => Some(UiAction::Bookmark(PaperTarget::Local(b.paper_id))),
                KeyCode::Char('c') => Some(UiAction::CopyCitation(PaperTarget::Local(b.paper_id))),
                KeyCode::Char('n') => Some(UiAction::OpenNote(PaperTarget::Local(b.paper_id))),
                KeyCode::Char('g') => Some(UiAction::Prompt(PaperTarget::Local(b.paper_id))),
                KeyCode::Char('R') => Some(UiAction::RenamePdf(b.paper_id)),
                KeyCode::Char('x') => Some(
                    UiAction::ConfirmDeletePaper {
                        paper_id: b.paper_id,
                        title: b.paper_title.clone(),
                        path: Some(b.pdf_path.clone()),
                    },
                ),
                _ => None,
            }
        },
    }
}

/// What a key does with the selected link of the credits.
pub open spec fn credits_result(app: App, code: KeyCode) -> Option<ActionView> {
    if app.page == Page::Credits && code == KeyCode::Enter && app.credits.selected
        < app.credits.urls@.len() {
        Some(ActionView::OpenBrowser(app.credits.urls@[app.credits.selected as int]@))
    } else {
        None
    }
}

/// Opens the selected link of the credits.
pub fn handle_credits_key(app: &App, key: KeyEvent) -> (r: Option<UiAction>)
    ensures
        act(r) == credits_result(*app, key.code),
{
    if app.page != Page::Credits {
        return None;
    }
    match key.code {
        KeyCode::Enter => {
            if app.credits.selected < app.credits.urls.len() {
                Some(UiAction::OpenBrowser(app.credits.urls[app.credits.selected].clone()))
            } else {
                None
            }
        },
        _ => None,
    }
}

/// What a key does with the selected paper of the notes.
pub open spec fn notes_result(app: App, code: KeyCode) -> Option<ActionView> {
    if app.page == Page::Notes {
        member_action(
            nth_paper(app.notes.papers@, app.search.query@, app.notes.selected as int),
            code,
        )
    } else {
        None
    }
}

fn member_key_action(p: Option<&LibraryPaper>, code: KeyCode) -> (r: Option<UiAction>)
    ensures
        act(r) == member_action(
            match p {
                Some(q) => Some(*q),
                None => None,
            },
            code,
        ),
{
    match p {
        Some(q) => {
            if opens_row(code) {
                open_local(q)
            } else {
                local_action(q, code)
            }
        },
        None => None,
    }
}

/// Keys of the notes workspace.
pub fn handle_notes_key(app: &App, key: KeyEvent) -> (r: Option<UiAction>)
    ensures
        act(r) == notes_result(*app, key.code),
{
    if app.page != Page::Notes {
        return None;
    }
    member_key_action(
        shown_paper(&app.notes.papers, app.search.query.as_str(), app.notes.selected),
        key.code,
    )
}

/// What a key does with the selected paper of the reading queue.
pub open spec fn queue_result(app: App, key: KeyEvent) -> Option<ActionView> {
    let p = nth_paper(app.queue.papers@, app.search.query@, app.queue.selected as int);
    if app.page != Page::ReadingQueue || p is None {
        None
    } else if key.code == KeyCode::Up && (key.modifiers.shift || key.modifiers.control) {
        Some(ActionView::MoveQueueItemUp(p->0.id))
    } else if key.code == KeyCode::Down && (key.modifiers.shift || key.modifiers.control) {
        Some(ActionView::MoveQueueItemDown(p->0.id))
    } else {
        member_action(p, key.code)
    }
}

/// Keys of the reading queue.
pub fn handle_reading_queue_key(app: &App, key: KeyEvent) -> (r: Option<UiAction>)
    ensures
        act(r) == queue_result(*app, key),
{
    if app.page != Page::ReadingQueue {
        return None;
    }
    let moves: bool = key.modifiers.shift || key.modifiers.control;
    match shown_paper(&app.queue.papers, app.search.query.as_str(), app.queue.selected) {
        None => None,
        Some(p) => {
            if moves && matches!(key.code, KeyCode::Up) {
                return Some(UiAction::MoveQueueItemUp(p.id));
            }
            if moves && matches!(key.code, KeyCode::Down) {
                return Some(UiAction::MoveQueueItemDown(p.id));
            }
            member_key_action(Some(p), key.code)
        },
    }
}

/// What a key does with the selected download.
pub open spec fn download_result(app: App, code: KeyCode) -> Option<ActionView> {
    match selected_download(app) {
        Some(task) => if app.page != Page::Downloads {
            None
        } else if code == KeyCode::Char('r') && task.status is Failed && task.remote_paper is Some {
            Some(ActionView::RetryDownload { id: task.id@, paper: task.remote_paper->0@ })
        } else if opens(code) && task.status is Completed {
            Some(ActionView::OpenDownload(task.id@))
        } else if paper_key(code) && task.status is Completed && download_paper(
            app.library.papers@,
            task,
        ) is Some {
            let id = download_paper(app.library.papers@, task)->0;
            match code {
                KeyCode::Char('R') => Some(ActionView::RenamePdf(id)),
                KeyCode::Char('g') => Some(ActionView::Prompt(TargetView::Local(id))),
                KeyCode::Char('B') => Some(ActionView::Bookmark(TargetView::Local(id))),
                KeyCode::Char('c') => Some(ActionView::CopyCitation(TargetView::Local(id))),
                KeyCode::Char('n') => Some(ActionView::OpenNote(TargetView::Local(id))),
                _ => Some(
                    ActionView::ConfirmDeletePaper {
                        paper_id: id,
                        title: task.title@,
                        path: opt_text(task.pdf_path),
                    },
                ),
            }
        } else {
            None
        },
        None => None,
    }
}

/// Whether a key in the downloads acts on the paper of a finished download.
pub open spec fn acts_on_download(app: App, code: KeyCode) -> bool {
    app.page == Page::Downloads && paper_key(code) && (selected_download(app) matches Some(task)
        && task.status is Completed && download_paper(app.library.papers@, task) is Some)
}

/// Keys of the downloads workspace.
pub fn handle_downloads_key(app: &mut App, key: KeyEvent) -> (r: Option<UiAction>)
    ensures
        act(r) == download_result(*old(app), key.code),
        *final(app) == (if acts_on_download(*old(app), key.code) {
            App { modal_return: AppMode::Normal, ..*old(app) }
        } else {
            *old(app)
        }),
{
    if app.page != Page::Downloads {
        return None;
    }
    let mut acts: bool = false;
    let action: Option<UiAction> = match current_download(app) {
        None => None,
        Some(task) => {
            let failed: bool = matches!(task.status, DownloadStatus::Failed(_));
            let completed: bool = matches!(task.status, DownloadStatus::Completed);
            if failed && matches!(key.code, KeyCode::Char('r')) {
                match &task.remote_paper {
                    Some(paper) => Some(
                        UiAction::RetryDownload { id: task.id.clone(), paper: paper.copy() },
                    ),
                    None => None,
                }
            } else if completed && opens_row(key.code) {
                Some(UiAction::OpenDownload(task.id.clone()))
            } else if completed && is_paper_key(key.code) {
                match paper_of_download(&app.library.papers, task) {
                    None => None,
                    Some(id) => {
                        acts = true;
                        match key.code {
                            KeyCode::Char('R') => Some(UiAction::RenamePdf(id)),
                            KeyCode::Char('g') => Some(UiAction::Prompt(PaperTarget::Local(id))),
                            KeyCode::Char('B') => Some(UiAction::Bookmark(PaperTarget::Local(id))),
                            KeyCode::Char('c') => Some(
                                UiAction::CopyCitation(PaperTarget::Local(id)),
                            ),
                            KeyCode::Char('n') => Some(UiAction::OpenNote(PaperTarget::Local(id))),
                            _ => Some(
                                UiAction::ConfirmDeletePaper {
                                    paper_id: id,
                                    title: task.title.clone(),
                                    path: copy_opt(&task.pdf_path),
                                },
                            ),
                        }
                    },
                }
            } else {
                None
            }
        },
    };
    if acts {
        app.modal_return = AppMode::Normal;
    }
    action
}

/// The selected paper of the library.
pub open spec fn library_paper(app: App) -> Option<LibraryPaper> {
    nth_paper(app.library.papers@, app.search.query@, app.library.selected as int)
}

/// What a key does with the selected paper of the library.
pub open spec fn library_result(app: App, code: KeyCode) -> Option<ActionView> {
    if app.page == Page::Library {
        member_action(library_paper(app), code)
    } else {
        None
    }
}

/// Keys of the library workspace.
pub fn library_action(app: &mut App, key: KeyEvent) -> (r: Option<UiAction>)
    ensures
        act(r) == library_result(*old(app), key.code),
        *final(app) == (if old(app).page == Page::Library && library_paper(*old(app)) is Some
            && !opens(key.code) && key.code != KeyCode::Char('x') {
            App { modal_return: AppMode::Normal, ..*old(app) }
        } else {
            *old(app)
        }),
{
    if app.page != Page::Library {
        return None;
    }
    let p = shown_paper(&app.library.papers, app.search.query.as_str(), app.library.selected);
    let some: bool = p.is_some();
    let action = member_key_action(p, key.code);
    if some && !opens_row(key.code) && !matches!(key.code, KeyCode::Char('x')) {
        app.modal_return = AppMode::Normal;
    }
    action
}

/// What a letter does with a paper of the library, whichever page shows it.
pub open spec fn letter_action(id: i64, letter: char) -> Option<ActionView> {
    if letter == 'B' {
        Some(ActionView::Bookmark(TargetView::Local(id)))
    } else if letter == 'c' {
        Some(ActionView::CopyCitation(TargetView::Local(id)))
    } else if letter == 'R' {
        Some(ActionView::RenamePdf(id))
    } else if letter == 'g' {
        Some(ActionView::Prompt(TargetView::Local(id)))
    } else if letter == 'n' {
        Some(ActionView::OpenNote(TargetView::Local(id)))
    } else {
        None
    }
}

/// On every page of papers a letter does the same with the paper of the selected row, and
/// `x` asks whether that paper is to be deleted.
pub proof fn lemma_letters_act_on_the_selected_paper(app: App, key: KeyEvent, letter: char)
    requires
        key.code == KeyCode::Char(letter),
        local_paper_id(app) is Some,
        letter == 'B' || letter == 'c' || letter == 'R' || letter == 'g' || letter == 'n' || letter
            == 'x',
    ensures
        ({
            let id = local_paper_id(app)->0;
            let asked = |r: Option<ActionView>|
                if letter == 'x' {
                    r matches Some(ActionView::ConfirmDeletePaper { paper_id, .. }) && paper_id == id
                } else {
                    r == letter_action(id, letter)
                };
            &&& app.page == Page::Library ==> asked(library_result(app, key.code))
            &&& app.page == Page::Notes ==> asked(notes_result(app, key.code))
            &&& app.page == Page::ReadingQueue ==> asked(queue_result(app, key))
            &&& app.page == Page::Bookmarks ==> asked(bookmark_result(app, key.code))
            &&& app.page == Page::Collections && letter != 'g' ==> asked(
                collection_action(app, key.code),
            )
            &&& app.page == Page::Authors ==> asked(author_action(app, key.code))
            &&& app.page == Page::Downloads && selected_download(app)->0.status is Completed
                ==> asked(download_result(app, key.code))
        }),
{
}

/// The keys that open a row open the file of its paper, and nothing where it has none.
pub proof fn lemma_rows_open_their_file(app: App, key: KeyEvent, i: int)
    requires
        key.code == KeyCode::Enter || key.code == KeyCode::Right || key.code == KeyCode::Char('l'),
        !key.modifiers.shift,
        !key.modifiers.control,
    ensures
        ({
            let query = app.search.query@;
            let opened = |p: LibraryPaper, r: Option<ActionView>|
                match p.pdf_path {
                    Some(path) => r == Some(ActionView::OpenPdf { paper_id: p.id, path: path@ }),
                    None => r is None,
                };
            &&& app.page == Page::Library && row(
                shown_papers(app.library.papers@, query),
                app.library.selected as int,
            ) == Some(i) ==> opened(app.library.papers@[i], library_result(app, key.code))
            &&& app.page == Page::Notes && row(
                shown_papers(app.notes.papers@, query),
                app.notes.selected as int,
            ) == Some(i) ==> opened(app.notes.papers@[i], notes_result(app, key.code))
            &&& app.page == Page::ReadingQueue && row(
                shown_papers(app.queue.papers@, query),
                app.queue.selected as int,
            ) == Some(i) ==> opened(app.queue.papers@[i], queue_result(app, key))
            &&& app.collections.active is Some && row(
                shown_papers(app.collections.papers@, query),
                app.collections.paper_selected as int,
            ) == Some(i) ==> opened(
                app.collections.papers@[i],
                collection_action(app, key.code),
            )
            &&& app.authors.active is Some && row(
                shown_papers(app.authors.papers@, query),
                app.authors.paper_selected as int,
            ) == Some(i) ==> opened(app.authors.papers@[i], author_action(app, key.code))
        }),
{
}

/// No key deletes anything at once: it is asked for first.
pub proof fn lemma_nothing_is_deleted_unasked(app: App, key: KeyEvent)
    ensures
        ({
            let deletes = |r: Option<ActionView>|
                r is Some && (r->0 is DeletePaper || r->0 is DeleteCollection);
            &&& !deletes(library_result(app, key.code))
            &&& !deletes(notes_result(app, key.code))
            &&& !deletes(queue_result(app, key))
            &&& !deletes(bookmark_result(app, key.code))
            &&& !deletes(collection_action(app, key.code))
            &&& !deletes(author_action(app, key.code))
            &&& !deletes(download_result(app, key.code))
        }),
{
}

/// A download that failed is tried again with its own paper, and one that is complete is
/// opened. While it is under way neither is done.
pub proof fn lemma_downloads_are_retried_or_opened(app: App, task: DownloadTask)
    requires
        app.page == Page::Downloads,
        selected_download(app) == Some(task),
    ensures
        download_result(app, KeyCode::Char('r')) == (match task.remote_paper {
            Some(p) => if task.status is Failed {
                Some(ActionView::RetryDownload { id: task.id@, paper: p@ })
            } else {
                None
            },
            None => None,
        }),
        download_result(app, KeyCode::Enter) == if task.status is Completed {
            Some(ActionView::OpenDownload(task.id@))
        } else {
            None
        },
        !(task.status is Completed) ==> download_result(app, KeyCode::Char('x')) is None
            && download_result(app, KeyCode::Char('R')) is None,
{
}

/// A download belongs to the paper that it names, else to the first of the library that
/// lies in its file.
pub proof fn lemma_download_belongs_to_its_paper(
    papers: Seq<LibraryPaper>,
    task: DownloadTask,
    j: int,
)
    ensures
        task.paper_id is Some ==> download_paper(papers, task) == task.paper_id,
        task.paper_id is None && task.pdf_path is None ==> download_paper(papers, task) is None,
        task.paper_id is None && task.pdf_path is Some && 0 <= j < papers.len() && is_file_of(
            papers[j],
            task,
        ) && (forall|i: int| 0 <= i < j ==> !is_file_of(#[trigger] papers[i], task))
            ==> download_paper(papers, task) == Some(papers[j].id),
        0 <= j < papers.len() && papers[j].pdf_path is Some && task.pdf_path is Some
            && papers[j].pdf_path->0@ == task.pdf_path->0@ ==> is_file_of(papers[j], task),
        0 <= j < papers.len() && task.linked_paper == Some(papers[j].id) ==> is_file_of(
            papers[j],
            task,
        ),
{
    if 0 <= j < papers.len() && is_file_of(papers[j], task) && (forall|i: int|
        0 <= i < j ==> !is_file_of(#[trigger] papers[i], task)) {
        lemma_first_of_file(papers, task, 0, j);
    }
}

proof fn lemma_first_of_file(papers: Seq<LibraryPaper>, task: DownloadTask, i: int, j: int)
    requires
        0 <= i <= j < papers.len(),
        is_file_of(papers[j], task),
        forall|k: int| i <= k < j ==> !is_file_of(#[trigger] papers[k], task),
    ensures
        paper_of_file(papers, task, i) == Some(papers[j].id),
    decreases j - i,
{
    if i < j {
        assert(!is_file_of(papers[i], task));
        lemma_first_of_file(papers, task, i + 1, j);
    }
}

/// Leaving a group or an author shows the list of them again.
pub proof fn lemma_members_are_left(before: App, after: App, code: KeyCode)
    requires
        code == KeyCode::Esc || code == KeyCode::Char('h'),
    ensures
        before.collections.active is Some && collection_after(before, after, code)
            ==> after.collections.active is None && after.collections.items
            == before.collections.items && after.collections.selected
            == before.collections.selected && collection_action(before, code) is None,
        before.authors.active is Some && author_after(before, after, code)
            ==> after.authors.active is None && after.authors.items == before.authors.items
            && after.authors.selected == before.authors.selected && author_action(before, code)
            is None,
{
}

} // verus!
