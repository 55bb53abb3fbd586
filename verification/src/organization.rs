//! Groups, authors and the other lists that mirror the library.

use crate::downloads::{clamp_selected, clamped};
use crate::model::{
    App, AppMode, AuthorSummary, AuthorsState, BookmarkSummary, BookmarksState,
    CollectionSearchItem, CollectionSummary, CollectionsState, DownloadStatus, DownloadTask,
    DownloadsState, LibraryPaper, LibraryState, MetadataPrompt, NotesState, QueueState,
};
use crate::paths::{
    absolute, below, component_count, components, entry_name, file_name, file_name_of, inside,
    is_inside, join_path, joined_path, parent, parent_of, path_key, plain_folder,
    replace_file_name, same_path, strip_folder, with_file_name,
};
use crate::strings::{
    ascii_lowered, concat, ends_with, lower, occurs_at, opt_text, same_ignoring_ascii_case,
    same_text, to_lower, trim, trimmed,
};
use crate::text::to_chars;
use crate::workspaces::paper_with_id;
use vstd::prelude::*;

verus! {

/// Shows the papers of the library; the selected row stays in reach.
pub fn refresh_library(library: &mut LibraryState, papers: Vec<LibraryPaper>)
    ensures
        *final(library) == (LibraryState {
            papers,
            selected: clamped(old(library).selected, papers@.len()),
            ..*old(library)
        }),
{
    library.selected = clamp_selected(library.selected, papers.len());
    library.papers = papers;
}

/// Whether a paper has been read.
pub open spec fn been_read() -> spec_fn(LibraryPaper) -> bool {
    |paper: LibraryPaper| paper.reading_status@ == "read"@
}

/// The number of papers that have been read.
pub fn count_read(papers: &Vec<LibraryPaper>) -> (r: usize)
    ensures
        r == papers@.filter(been_read()).len(),
{
    let mut count: usize = 0;
    let mut i: usize = 0;
    assert(papers@.take(0).filter(been_read()) =~= Seq::empty()) by {
        reveal(Seq::filter);
    }
    while i < papers.len()
        invariant
            i <= papers@.len(),
            count <= i,
            count == papers@.take(i as int).filter(been_read()).len(),
        decreases papers.len() - i,
    {
        proof {
            reveal(Seq::filter);
            assert(papers@.take(i + 1).drop_last() =~= papers@.take(i as int));
        }
        if same_text(papers[i].reading_status.as_str(), "read") {
            count = count + 1;
        }
        i = i + 1;
    }
    assert(papers@.take(papers@.len() as int) =~= papers@);
    count
}

/// Position of the first group with an id, from position `i` on.
pub open spec fn group_place(items: Seq<CollectionSummary>, id: i64, i: int) -> Option<int>
    decreases items.len() - i,
{
    if i >= items.len() {
        None
    } else if items[i].id == id {
        Some(i)
    } else {
        group_place(items, id, i + 1)
    }
}

fn find_group(items: &Vec<CollectionSummary>, id: i64) -> (r: Option<usize>)
    ensures
        r is Some <==> group_place(items@, id, 0) is Some,
        r matches Some(k) ==> group_place(items@, id, 0) == Some(k as int) && k < items@.len(),
{
    let mut i: usize = 0;
    while i < items.len()
        invariant
            i <= items@.len(),
            group_place(items@, id, 0) == group_place(items@, id, i as int),
        decreases items@.len() - i,
    {
        if items[i].id == id {
            return Some(i);
        }
        i = i + 1;
    }
    None
}

/// The first group with an id.
pub open spec fn group_with_id(items: Seq<CollectionSummary>, id: i64) -> Option<
    CollectionSummary,
> {
    match group_place(items, id, 0) {
        Some(k) => Some(items[k]),
        None => None,
    }
}

fn copy_group(items: &Vec<CollectionSummary>, id: i64) -> (r: Option<CollectionSummary>)
    ensures
        r == group_with_id(items@, id),
{
    match find_group(items, id) {
        Some(k) => Some(items[k].copy()),
        None => None,
    }
}

/// The first author with an id, from position `i` on.
pub open spec fn author_with_id(items: Seq<AuthorSummary>, id: i64, i: int) -> Option<AuthorSummary>
    decreases items.len() - i,
{
    if i >= items.len() {
        None
    } else if items[i].id == id {
        Some(items[i])
    } else {
        author_with_id(items, id, i + 1)
    }
}

fn copy_author(items: &Vec<AuthorSummary>, id: i64) -> (r: Option<AuthorSummary>)
    ensures
        r == author_with_id(items@, id, 0),
{
    let mut i: usize = 0;
    while i < items.len()
        invariant
            i <= items@.len(),
            author_with_id(items@, id, 0) == author_with_id(items@, id, i as int),
        decreases items@.len() - i,
    {
        if items[i].id == id {
            return Some(
                AuthorSummary {
                    id: items[i].id,
                    name: items[i].name.clone(),
                    paper_count: items[i].paper_count,
                },
            );
        }
        i = i + 1;
    }
    None
}

/// The lists as the library has them. `group_papers` and `author_papers` are
/// those of the open group and author.
#[derive(Debug)]
pub struct Organization {
    pub groups: Vec<CollectionSummary>,
    pub found: Vec<CollectionSearchItem>,
    pub group_papers: Vec<LibraryPaper>,
    pub bookmarks: Vec<BookmarkSummary>,
    pub authors: Vec<AuthorSummary>,
    pub author_papers: Vec<LibraryPaper>,
    pub notes: Vec<LibraryPaper>,
    pub queue: Vec<LibraryPaper>,
}

/// The groups after they were read anew.
pub open spec fn groups_refreshed(c: CollectionsState, data: Organization) -> CollectionsState {
    let listed = CollectionsState {
        items: data.groups,
        found: data.found,
        selected: clamped(c.selected, data.groups@.len()),
        ..c
    };
    match c.active {
        None => listed,
        Some(active) => CollectionsState {
            active: group_with_id(data.groups@, active.id),
            papers: data.group_papers,
            paper_selected: clamped(c.paper_selected, data.group_papers@.len()),
            ..listed
        },
    }
}

/// Whether the authors have been read anew.
pub open spec fn authors_refreshed(before: AuthorsState, after: AuthorsState, data: Organization) -> bool {
    let listed = AuthorsState {
        items: data.authors,
        selected: clamped(before.selected, data.authors@.len()),
        ..before
    };
    match before.active {
        None => after == listed,
        Some(active) => match author_with_id(data.authors@, active.id, 0) {
            Some(author) => after == AuthorsState {
                active: Some(author),
                papers: data.author_papers,
                paper_selected: clamped(before.paper_selected, data.author_papers@.len()),
                ..listed
            },
            None => after == (AuthorsState {
                active: None,
                papers: after.papers,
                paper_selected: 0,
                ..listed
            }) && after.papers@.len() == 0,
        },
    }
}

/// Whether all lists have been read anew.
pub open spec fn lists_refreshed(before: App, after: App, data: Organization) -> bool {
    &&& after == App {
        collections: groups_refreshed(before.collections, data),
        bookmarks: BookmarksState {
            items: data.bookmarks,
            selected: clamped(before.bookmarks.selected, data.bookmarks@.len()),
        },
        authors: after.authors,
        notes: NotesState {
            papers: data.notes,
            selected: clamped(before.notes.selected, data.notes@.len()),
            ..before.notes
        },
        queue: QueueState {
            papers: data.queue,
            selected: clamped(before.queue.selected, data.queue@.len()),
        },
        ..before
    }
    &&& authors_refreshed(before.authors, after.authors, data)
}

/// Shows the lists as the library has them. What was selected or open stays so
/// as far as it still exists.
pub fn refresh_organization(app: &mut App, data: Organization)
    ensures
        lists_refreshed(*old(app), *final(app), data),
{
    let selected: usize = clamp_selected(app.collections.selected, data.groups.len());
    app.collections.selected = selected;
    let active_group: Option<i64> = match &app.collections.active {
        Some(active) => Some(active.id),
        None => None,
    };
    match active_group {
        Some(id) => {
            app.collections.active = copy_group(&data.groups, id);
            app.collections.paper_selected = clamp_selected(
                app.collections.paper_selected,
                data.group_papers.len(),
            );
            app.collections.papers = data.group_papers;
        },
        None => {},
    }
    app.collections.items = data.groups;
    app.collections.found = data.found;
    app.bookmarks.selected = clamp_selected(app.bookmarks.selected, data.bookmarks.len());
    app.bookmarks.items = data.bookmarks;
    app.authors.selected = clamp_selected(app.authors.selected, data.authors.len());
    let active_author: Option<i64> = match &app.authors.active {
        Some(active) => Some(active.id),
        None => None,
    };
    match active_author {
        Some(id) => {
            app.authors.active = copy_author(&data.authors, id);
            if app.authors.active.is_some() {
                app.authors.paper_selected = clamp_selected(
                    app.authors.paper_selected,
                    data.author_papers.len(),
                );
                app.authors.papers = data.author_papers;
            } else {
                app.authors.papers = Vec::new();
                app.authors.paper_selected = 0;
            }
        },
        None => {},
    }
    app.authors.items = data.authors;
    app.notes.selected = clamp_selected(app.notes.selected, data.notes.len());
    app.notes.papers = data.notes;
    app.queue.selected = clamp_selected(app.queue.selected, data.queue.len());
    app.queue.papers = data.queue;
}

/// Shows the lists after a group was renamed, with that group selected.
pub fn refresh_renamed_collection(app: &mut App, data: Organization, collection_id: i64)
    ensures
        exists|mid: App|
            {
                &&& #[trigger] lists_refreshed(*old(app), mid, data)
                &&& *final(app) == (App {
                    collections: CollectionsState {
                        selected: match group_place(data.groups@, collection_id, 0) {
                            Some(k) => k as usize,
                            None => clamped(usize::MAX, data.groups@.len()),
                        },
                        ..mid.collections
                    },
                    ..mid
                })
            },
{
    refresh_organization(app, data);
    let ghost mid = *app;
    app.collections.selected = match find_group(&app.collections.items, collection_id) {
        Some(k) => k,
        None => clamp_selected(usize::MAX, app.collections.items.len()),
    };
    assert(lists_refreshed(*old(app), mid, data));
}

/// Opens a group. Its selection is kept where it was the last one opened.
pub fn open_collection(state: &mut CollectionsState, collection_id: i64, papers: Vec<LibraryPaper>)
    ensures
        *final(state) == (CollectionsState {
            active: group_with_id(old(state).items@, collection_id),
            papers,
            paper_selected: if old(state).last_opened == Some(collection_id) {
                clamped(old(state).paper_selected, papers@.len())
            } else {
                0
            },
            last_opened: Some(collection_id),
            ..*old(state)
        }),
{
    let restore: bool = match state.last_opened {
        Some(id) => id == collection_id,
        None => false,
    };
    state.active = copy_group(&state.items, collection_id);
    state.paper_selected = if restore {
        clamp_selected(state.paper_selected, papers.len())
    } else {
        0
    };
    state.papers = papers;
    state.last_opened = Some(collection_id);
}

/// Opens an author. The selection is kept where it was the last one opened.
pub fn open_author(state: &mut AuthorsState, author_id: i64, papers: Vec<LibraryPaper>)
    ensures
        *final(state) == (AuthorsState {
            active: author_with_id(old(state).items@, author_id, 0),
            papers,
            paper_selected: if old(state).last_opened == Some(author_id) {
                clamped(old(state).paper_selected, papers@.len())
            } else {
                0
            },
            last_opened: Some(author_id),
            ..*old(state)
        }),
{
    let restore: bool = match state.last_opened {
        Some(id) => id == author_id,
        None => false,
    };
    state.active = copy_author(&state.items, author_id);
    state.paper_selected = if restore {
        clamp_selected(state.paper_selected, papers.len())
    } else {
        0
    };
    state.papers = papers;
    state.last_opened = Some(author_id);
}

/// Whether a text holds a slash or a backslash.
pub open spec fn has_separator(s: Seq<char>) -> bool {
    s.contains('/') || s.contains('\\')
}

/// Whether a text holds a slash or a backslash.
pub fn holds_separator(s: &str) -> (r: bool)
    ensures
        r == has_separator(s@),
{
    let chars = to_chars(s);
    let mut i: usize = 0;
    while i < chars.len()
        invariant
            i <= chars@.len(),
            chars@ == s@,
            forall|j: int| 0 <= j < i ==> chars@[j] != '/' && chars@[j] != '\\',
        decreases chars@.len() - i,
    {
        if chars[i] == '/' || chars[i] == '\\' {
            return true;
        }
        i = i + 1;
    }
    false
}

/// Whether a name can be that of one folder.
pub open spec fn safe_name(name: Seq<char>) -> bool {
    name.len() > 0 && name != "."@ && name != ".."@ && !has_separator(name)
}

/// Accepts the name of one folder.
pub fn validate_collection_name(name: &str) -> (r: Result<(), String>)
    ensures
        r is Ok <==> safe_name(name@),
        r matches Err(e) ==> e@ == "group name must be one safe directory name"@,
{
    if name.is_empty() || same_text(name, ".") || same_text(name, "..") || holds_separator(name) {
        return Err("group name must be one safe directory name".to_owned());
    }
    Ok(())
}

/// A prompt that has just been opened.
pub open spec fn empty_prompt(
    p: MetadataPrompt,
    paper_id: Option<i64>,
    rename_collection_id: Option<i64>,
    rename_paper_id: Option<i64>,
    current: Option<Seq<char>>,
) -> bool {
    &&& p.paper_id == paper_id
    &&& p.rename_collection_id == rename_collection_id
    &&& p.rename_paper_id == rename_paper_id
    &&& p.value@.len() == 0
    &&& p.cursor == 0
    &&& p.selected == 0
    &&& opt_text(p.current_collection) == current
}

/// Opens an empty prompt.
pub fn show_prompt(
    app: &mut App,
    paper_id: Option<i64>,
    rename_collection_id: Option<i64>,
    rename_paper_id: Option<i64>,
    current: Option<String>,
)
    ensures
        *final(app) == (App { prompt: final(app).prompt, mode: AppMode::Prompt, ..*old(app) }),
        final(app).prompt matches Some(p) && empty_prompt(
            p,
            paper_id,
            rename_collection_id,
            rename_paper_id,
            opt_text(current),
        ),
{
    app.prompt = Some(
        MetadataPrompt {
            paper_id,
            rename_collection_id,
            rename_paper_id,
            value: String::new(),
            cursor: 0,
            selected: 0,
            current_collection: current,
        },
    );
    app.mode = AppMode::Prompt;
}

/// Opens the prompt for the group of a paper, or for a new group.
pub fn show_collection_prompt(
    app: &mut App,
    paper_id: Option<i64>,
    rename_id: Option<i64>,
    current_collection: Option<String>,
)
    ensures
        *final(app) == (App { prompt: final(app).prompt, mode: AppMode::Prompt, ..*old(app) }),
        final(app).prompt matches Some(p) && empty_prompt(
            p,
            paper_id,
            rename_id,
            None,
            opt_text(current_collection),
        ),
{
    show_prompt(app, paper_id, rename_id, None, current_collection);
}

/// What a confirmed prompt asks for. Of a file that keeps its path nothing is
/// asked; `moves` tells whether the file of an assigned paper changes its path.
#[derive(Debug)]
pub enum PromptPlan {
    Nothing,
    RenameFile { paper_id: i64, source: String, destination: String },
    RenameGroup { collection_id: i64, name: String, old_folder: String, new_folder: String },
    CreateGroup { name: String, folder: String },
    Assign {
        paper_id: i64,
        group: Option<i64>,
        name: String,
        folder: String,
        source: String,
        destination: String,
        moves: bool,
    },
}

/// A [`PromptPlan`] by its texts.
pub enum PlanView {
    Nothing,
    RenameFile { paper_id: i64, source: Seq<char>, destination: Seq<char> },
    RenameGroup {
        collection_id: i64,
        name: Seq<char>,
        old_folder: Seq<char>,
        new_folder: Seq<char>,
    },
    CreateGroup { name: Seq<char>, folder: Seq<char> },
    Assign {
        paper_id: i64,
        group: Option<i64>,
        name: Seq<char>,
        folder: Seq<char>,
        source: Seq<char>,
        destination: Seq<char>,
        moves: bool,
    },
}

impl View for PromptPlan {
    type V = PlanView;

    open spec fn view(&self) -> PlanView {
        match self {
            PromptPlan::Nothing => PlanView::Nothing,
            PromptPlan::RenameFile { paper_id, source, destination } => PlanView::RenameFile {
                paper_id: *paper_id,
                source: source@,
                destination: destination@,
            },
            PromptPlan::RenameGroup { collection_id, name, old_folder, new_folder } =>
                PlanView::RenameGroup {
                collection_id: *collection_id,
                name: name@,
                old_folder: old_folder@,
                new_folder: new_folder@,
            },
            PromptPlan::CreateGroup { name, folder } => PlanView::CreateGroup {
                name: name@,
                folder: folder@,
            },
            PromptPlan::Assign { paper_id, group, name, folder, source, destination, moves } =>
                PlanView::Assign {
                paper_id: *paper_id,
                group: *group,
                name: name@,
                folder: folder@,
                source: source@,
                destination: destination@,
                moves: *moves,
            },
        }
    }
}

/// A name that ends in the extension of documents, in any case.
pub open spec fn document_name(name: Seq<char>) -> Seq<char> {
    if occurs_at(lower(name), ".pdf"@, lower(name).len() - ".pdf"@.len()) {
        name
    } else {
        name + ".pdf"@
    }
}

/// The folder of a group.
pub open spec fn group_folder(group: CollectionSummary, root: Seq<char>) -> Seq<char> {
    match group.folder_path {
        Some(path) => path@,
        None => joined_path(root, group.name@),
    }
}

fn folder_of(group: &CollectionSummary, root: &str) -> (r: String)
    ensures
        r@ == group_folder(*group, root@),
{
    match &group.folder_path {
        Some(path) => path.clone(),
        None => join_path(root, group.name.as_str()),
    }
}

/// Position of the first group with a name, without regard to the case of ASCII
/// letters, from position `i` on.
pub open spec fn group_named(items: Seq<CollectionSummary>, name: Seq<char>, i: int) -> Option<int>
    decreases items.len() - i,
{
    if i >= items.len() {
        None
    } else if ascii_lowered(items[i].name@) == ascii_lowered(name) {
        Some(i)
    } else {
        group_named(items, name, i + 1)
    }
}

fn find_named(items: &Vec<CollectionSummary>, name: &str) -> (r: Option<usize>)
    ensures
        r is Some <==> group_named(items@, name@, 0) is Some,
        r matches Some(k) ==> group_named(items@, name@, 0) == Some(k as int) && k < items@.len(),
{
    let mut i: usize = 0;
    while i < items.len()
        invariant
            i <= items@.len(),
            group_named(items@, name@, 0) == group_named(items@, name@, i as int),
        decreases items@.len() - i,
    {
        if same_ignoring_ascii_case(items[i].name.as_str(), name) {
            return Some(i);
        }
        i = i + 1;
    }
    None
}

/// The folder that the papers of a group are kept in, whether the group exists
/// or is to be made.
pub open spec fn folder_for(items: Seq<CollectionSummary>, name: Seq<char>, root: Seq<char>) -> Seq<
    char,
> {
    match group_named(items, name, 0) {
        Some(k) => group_folder(items[k], root),
        None => joined_path(root, name),
    }
}

/// The id of a group that exists.
pub open spec fn id_named(items: Seq<CollectionSummary>, name: Seq<char>) -> Option<i64> {
    match group_named(items, name, 0) {
        Some(k) => Some(items[k].id),
        None => None,
    }
}

/// A group and the folder of its papers. A group without an id is to be made.
#[derive(Debug)]
pub struct GroupTarget {
    pub id: Option<i64>,
    pub folder: String,
}

/// The group under a name, or the one to be made.
pub fn plan_group(items: &Vec<CollectionSummary>, name: &str, root: &str) -> (r: GroupTarget)
    ensures
        r.id == id_named(items@, name@),
        r.folder@ == folder_for(items@, name@, root@),
{
    match find_named(items, name) {
        Some(k) => GroupTarget { id: Some(items[k].id), folder: folder_of(&items[k], root) },
        None => GroupTarget { id: None, folder: join_path(root, name) },
    }
}

/// The path of a file once it is in a folder.
pub fn plan_move(source: &str, folder: &str) -> (r: Result<String, String>)
    ensures
        match r {
            Ok(path) => file_name(source@) matches Some(name) && path@ == joined_path(
                folder@,
                name,
            ),
            Err(e) => file_name(source@) is None && e@ == "PDF path has no filename"@,
        },
{
    match file_name_of(source) {
        Some(name) => Ok(join_path(folder, name.as_str())),
        None => Err("PDF path has no filename".to_owned()),
    }
}

/// What a confirmed prompt asks for, or why it is refused.
pub open spec fn prompt_plan(app: App, p: MetadataPrompt, root: Seq<char>) -> Result<
    PlanView,
    Seq<char>,
> {
    let name = trimmed(p.value@);
    if name.len() == 0 {
        Ok(PlanView::Nothing)
    } else if p.rename_paper_id is Some {
        let id = p.rename_paper_id->0;
        if has_separator(name) {
            Err("filename must not contain path separators"@)
        } else {
            match paper_with_id(app.library.papers@, id, 0) {
                None => Err("paper not found"@),
                Some(paper) => match paper.pdf_path {
                    None => Err("paper has no local PDF"@),
                    Some(source) => {
                        let destination = with_file_name(source@, document_name(name));
                        if path_key(source@) == path_key(destination) {
                            Ok(PlanView::Nothing)
                        } else {
                            Ok(
                                PlanView::RenameFile { paper_id: id, source: source@, destination },
                            )
                        }
                    },
                },
            }
        }
    } else if !safe_name(name) {
        Err("group name must be one safe directory name"@)
    } else if p.rename_collection_id is Some {
        let id = p.rename_collection_id->0;
        match group_with_id(app.collections.items@, id) {
            None => Err("group no longer exists"@),
            Some(group) => {
                let old_folder = group_folder(group, root);
                let above = match parent(old_folder) {
                    Some(dir) => dir,
                    None => root,
                };
                Ok(
                    PlanView::RenameGroup {
                        collection_id: id,
                        name,
                        old_folder,
                        new_folder: joined_path(above, name),
                    },
                )
            },
        }
    } else if p.paper_id is None {
        if group_named(app.collections.items@, name, 0) is Some {
            Err("a group with this name already exists"@)
        } else {
            Ok(PlanView::CreateGroup { name, folder: joined_path(root, name) })
        }
    } else {
        let id = p.paper_id->0;
        match paper_with_id(app.library.papers@, id, 0) {
            None => Err("paper must have a local PDF before group assignment"@),
            Some(paper) => match paper.pdf_path {
                None => Err("paper has no local PDF"@),
                Some(source) => {
                    let folder = folder_for(app.collections.items@, name, root);
                    match file_name(source@) {
                        None => Err("PDF path has no filename"@),
                        Some(last) => {
                            let destination = joined_path(folder, last);
                            Ok(
                                PlanView::Assign {
                                    paper_id: id,
                                    group: id_named(app.collections.items@, name),
                                    name,
                                    folder,
                                    source: source@,
                                    destination,
                                    moves: path_key(source@) != path_key(destination),
                                },
                            )
                        },
                    }
                },
            },
        }
    }
}

fn file_of(papers: &Vec<LibraryPaper>, id: i64, missing: &str) -> (r: Result<String, String>)
    ensures
        match paper_with_id(papers@, id, 0) {
            None => r matches Err(e) && e@ == missing@,
            Some(paper) => match paper.pdf_path {
                None => r matches Err(e) && e@ == "paper has no local PDF"@,
                Some(path) => r matches Ok(p) && p@ == path@,
            },
        },
{
    match crate::workspaces::find_paper(papers, id) {
        None => Err(missing.to_owned()),
        Some(paper) => match &paper.pdf_path {
            None => Err("paper has no local PDF".to_owned()),
            Some(path) => Ok(path.clone()),
        },
    }
}

/// What a confirmed prompt asks for, or why it is refused. Nothing is asked of
/// an empty prompt.
pub fn apply_collection_prompt(app: &App, prompt: &MetadataPrompt, root: &str) -> (r: Result<
    PromptPlan,
    String,
>)
    ensures
        match prompt_plan(*app, *prompt, root@) {
            Ok(plan) => r matches Ok(p) && p@ == plan,
            Err(message) => r matches Err(e) && e@ == message,
        },
{
    let name = trim(prompt.value.as_str());
    if name.as_str().is_empty() {
        return Ok(PromptPlan::Nothing);
    }
    match prompt.rename_paper_id {
        Some(paper_id) => {
            if holds_separator(name.as_str()) {
                return Err("filename must not contain path separators".to_owned());
            }
            let new_name = if ends_with(to_lower(name.as_str()).as_str(), ".pdf") {
                name
            } else {
                concat(name.as_str(), ".pdf")
            };
            let source = match file_of(&app.library.papers, paper_id, "paper not found") {
                Ok(source) => source,
                Err(e) => return Err(e),
            };
            let destination = replace_file_name(source.as_str(), new_name.as_str());
            if same_path(source.as_str(), destination.as_str()) {
                return Ok(PromptPlan::Nothing);
            }
            return Ok(PromptPlan::RenameFile { paper_id, source, destination });
        },
        None => {},
    }
    match validate_collection_name(name.as_str()) {
        Ok(_) => {},
        Err(e) => return Err(e),
    }
    match prompt.rename_collection_id {
        Some(collection_id) => {
            return match find_group(&app.collections.items, collection_id) {
                None => Err("group no longer exists".to_owned()),
                Some(k) => {
                    let old_folder = folder_of(&app.collections.items[k], root);
                    let new_folder = match parent_of(old_folder.as_str()) {
                        Some(dir) => join_path(dir.as_str(), name.as_str()),
                        None => join_path(root, name.as_str()),
                    };
                    Ok(PromptPlan::RenameGroup { collection_id, name, old_folder, new_folder })
                },
            };
        },
        None => {},
    }
    match prompt.paper_id {
        None => {
            if find_named(&app.collections.items, name.as_str()).is_some() {
                return Err("a group with this name already exists".to_owned());
            }
            let folder = join_path(root, name.as_str());
            Ok(PromptPlan::CreateGroup { name, folder })
        },
        Some(paper_id) => {
            let source = match file_of(
                &app.library.papers,
                paper_id,
                "paper must have a local PDF before group assignment",
            ) {
                Ok(source) => source,
                Err(e) => return Err(e),
            };
            let target = plan_group(&app.collections.items, name.as_str(), root);
            let destination = match plan_move(source.as_str(), target.folder.as_str()) {
                Ok(destination) => destination,
                Err(e) => return Err(e),
            };
            let moves: bool = !same_path(source.as_str(), destination.as_str());
            Ok(
                PromptPlan::Assign {
                    paper_id,
                    group: target.id,
                    name,
                    folder: target.folder,
                    source,
                    destination,
                    moves,
                },
            )
        },
    }
}

/// Refuses a plan whose file would take the place of another one.
pub fn check_destination(plan: &PromptPlan, taken: bool) -> (r: Result<(), String>)
    ensures
        match *plan {
            PromptPlan::RenameFile { .. } => if taken {
                r matches Err(e) && e@ == "a file with this name already exists"@
            } else {
                r is Ok
            },
            PromptPlan::Assign { moves, .. } => if taken && moves {
                r matches Err(e) && e@ == "a PDF with this filename already exists in the group"@
            } else {
                r is Ok
            },
            _ => r is Ok,
        },
{
    match plan {
        PromptPlan::RenameFile { .. } => {
            if taken {
                return Err("a file with this name already exists".to_owned());
            }
        },
        PromptPlan::Assign { moves, .. } => {
            if taken && *moves {
                return Err("a PDF with this filename already exists in the group".to_owned());
            }
        },
        _ => {},
    }
    Ok(())
}

/// Position of the first download of a paper, from position `i` on.
pub open spec fn task_of_paper(tasks: Seq<DownloadTask>, id: i64, i: int) -> Option<int>
    decreases tasks.len() - i,
{
    if i >= tasks.len() {
        None
    } else if tasks[i].paper_id == Some(id) {
        Some(i)
    } else {
        task_of_paper(tasks, id, i + 1)
    }
}

/// The first download of a paper.
pub fn find_task_of_paper(tasks: &Vec<DownloadTask>, id: i64) -> (r: Option<usize>)
    ensures
        r is Some <==> task_of_paper(tasks@, id, 0) is Some,
        r matches Some(k) ==> task_of_paper(tasks@, id, 0) == Some(k as int) && k < tasks@.len(),
{
    let mut i: usize = 0;
    while i < tasks.len()
        invariant
            i <= tasks@.len(),
            task_of_paper(tasks@, id, 0) == task_of_paper(tasks@, id, i as int),
        decreases tasks@.len() - i,
    {
        let same: bool = match tasks[i].paper_id {
            Some(p) => p == id,
            None => false,
        };
        if same {
            return Some(i);
        }
        i = i + 1;
    }
    None
}

/// Marks the download of a paper whose file is about to be renamed.
pub fn file_renaming(downloads: &mut DownloadsState, paper_id: i64)
    ensures
        *final(downloads) == (DownloadsState { tasks: final(downloads).tasks, ..*old(downloads) }),
        final(downloads).tasks@ == (match task_of_paper(old(downloads).tasks@, paper_id, 0) {
            None => old(downloads).tasks@,
            Some(k) => old(downloads).tasks@.update(
                k,
                DownloadTask { status: DownloadStatus::Renaming, ..old(downloads).tasks@[k] },
            ),
        }),
{
    match find_task_of_paper(&downloads.tasks, paper_id) {
        Some(k) => {
            downloads.tasks[k].status = DownloadStatus::Renaming;
        },
        None => {},
    }
}

/// Notes the new path of the file of a paper in its download.
pub fn file_renamed(downloads: &mut DownloadsState, paper_id: i64, path: String)
    ensures
        *final(downloads) == (DownloadsState { tasks: final(downloads).tasks, ..*old(downloads) }),
        final(downloads).tasks@ == (match task_of_paper(old(downloads).tasks@, paper_id, 0) {
            None => old(downloads).tasks@,
            Some(k) => old(downloads).tasks@.update(
                k,
                DownloadTask {
                    status: DownloadStatus::Completed,
                    pdf_path: Some(path),
                    ..old(downloads).tasks@[k]
                },
            ),
        }),
{
    match find_task_of_paper(&downloads.tasks, paper_id) {
        Some(k) => {
            downloads.tasks[k].pdf_path = Some(path);
            downloads.tasks[k].status = DownloadStatus::Completed;
        },
        None => {},
    }
}

/// What adding a paper to a group asks for: nothing for an empty name, and a
/// refusal for a name that is not that of one folder.
pub fn add_paper_to_collection_with_disk(
    items: &Vec<CollectionSummary>,
    name: &str,
    root: &str,
) -> (r: Result<Option<GroupTarget>, String>)
    ensures
        ({
            let typed = trimmed(name@);
            if typed.len() == 0 {
                r matches Ok(target) && target is None
            } else if !safe_name(typed) {
                r matches Err(e) && e@ == "group name must be one safe directory name"@
            } else {
                r matches Ok(Some(target)) && target.id == id_named(items@, typed)
                    && target.folder@ == folder_for(items@, typed, root@)
            }
        }),
{
    let name = trim(name);
    if name.as_str().is_empty() {
        return Ok(None);
    }
    match validate_collection_name(name.as_str()) {
        Ok(_) => {},
        Err(e) => return Err(e),
    }
    Ok(Some(plan_group(items, name.as_str(), root)))
}

/// Whether adding a paper to a group has changed anything: it was in another
/// group, or its file has been moved.
pub fn membership_changed(current: &Option<String>, name: &str, moved: bool) -> (r: bool)
    ensures
        r == (moved || !(current matches Some(c) && ascii_lowered(c@) == ascii_lowered(
            trimmed(name@),
        ))),
{
    let name = trim(name);
    let already: bool = match current {
        Some(c) => same_ignoring_ascii_case(c.as_str(), name.as_str()),
        None => false,
    };
    !already || moved
}

/// Whether root `k` is the one that a file belongs to: the deepest folder that
/// holds it and, of several, the last.
pub open spec fn root_of(roots: Seq<String>, path: Seq<char>, k: int) -> bool {
    &&& 0 <= k < roots.len()
    &&& inside(path, roots[k]@)
    &&& forall|j: int|
        0 <= j < roots.len() && inside(path, (#[trigger] roots[j])@) && j != k ==> {
            &&& components(roots[j]@).len() <= components(roots[k]@).len()
            &&& j > k ==> components(roots[j]@).len() < components(roots[k]@).len()
        }
}

/// The folder below its root that a file is in, where it is not the root itself.
pub open spec fn folder_below(path: Seq<char>, root: Seq<char>) -> Option<Seq<char>> {
    match parent(path) {
        Some(dir) => if inside(dir, root) && below(dir, root).len() > 0 {
            Some(below(dir, root))
        } else {
            None
        },
        None => None,
    }
}

/// Where a file stands in the library.
#[derive(Debug)]
pub struct Membership {
    pub root: String,
    pub folder: Option<String>,
}

/// Where a file stands in the library: the deepest root that holds it, and the
/// folder below. A file outside of all roots is in no group.
pub fn sync_pdf_collection_membership(path: &str, roots: &Vec<String>) -> (r: Option<Membership>)
    ensures
        r is Some <==> exists|k: int| 0 <= k < roots@.len() && inside(path@, (#[trigger] roots@[k])@),
        r matches Some(m) ==> exists|k: int| #[trigger] root_of(roots@, path@, k) && m.root@
            == roots@[k]@ && opt_text(m.folder) == folder_below(path@, roots@[k]@),
{
    let mut best: Option<usize> = None;
    let mut depth: usize = 0;
    let mut i: usize = 0;
    while i < roots.len()
        invariant
            i <= roots@.len(),
            best is None ==> forall|j: int| 0 <= j < i ==> !inside(path@, (#[trigger] roots@[j])@),
            best matches Some(k) ==> {
                &&& k < i
                &&& inside(path@, roots@[k as int]@)
                &&& depth == components(roots@[k as int]@).len()
                &&& forall|j: int|
                    0 <= j < i && inside(path@, (#[trigger] roots@[j])@) && j != k ==> {
                        &&& components(roots@[j]@).len() <= depth
                        &&& j > k ==> components(roots@[j]@).len() < depth
                    }
            },
        decreases roots@.len() - i,
    {
        if is_inside(path, roots[i].as_str()) {
            let n: usize = component_count(roots[i].as_str());
            if best.is_none() || n >= depth {
                best = Some(i);
                depth = n;
            }
        }
        i = i + 1;
    }
    match best {
        None => None,
        Some(k) => {
            assert(root_of(roots@, path@, k as int));
            let root = roots[k].clone();
            let folder: Option<String> = match parent_of(path) {
                Some(dir) => match strip_folder(dir.as_str(), root.as_str()) {
                    Some(rest) => if rest.as_str().is_empty() {
                        None
                    } else {
                        Some(rest)
                    },
                    None => None,
                },
                None => None,
            };
            Some(Membership { root, folder })
        },
    }
}

/// A plugin and whether it is in use.
#[derive(Debug)]
pub struct PluginInfo {
    pub id: String,
    pub enabled: bool,
}

/// What a plugin asks for.
#[derive(Debug)]
pub enum PluginAction {
    Notify { message: String },
    AddToCollection { name: String },
}

/// What the plugins have brought about so far.
#[derive(Debug)]
pub struct PluginOutcome {
    pub organization_dirty: bool,
    pub last_notify: Option<String>,
}

/// Position of the next plugin that is in use, from position `i` on.
pub open spec fn enabled_from(plugins: Seq<PluginInfo>, i: int) -> Option<int>
    decreases plugins.len() - i,
{
    if i >= plugins.len() {
        None
    } else if plugins[i].enabled {
        Some(i)
    } else {
        enabled_from(plugins, i + 1)
    }
}

/// The plugin and the event that are next, after event `event` of plugin `plugin`
/// or, for `None`, at the start. Each plugin in use gets every event, one plugin
/// after another.
pub open spec fn next_invocation(
    plugins: Seq<PluginInfo>,
    events: int,
    last: Option<(usize, usize)>,
) -> Option<(int, int)> {
    match last {
        Some((plugin, event)) => if event + 1 < events {
            Some((plugin as int, event + 1))
        } else {
            match enabled_from(plugins, plugin + 1) {
                Some(next) => Some((next, 0)),
                None => None,
            }
        },
        None => match enabled_from(plugins, 0) {
            Some(next) => if events > 0 {
                Some((next, 0))
            } else {
                None
            },
            None => None,
        },
    }
}

/// The plugin and the event that are next.
pub fn next_plugin_event(
    plugins: &Vec<PluginInfo>,
    events: usize,
    last: Option<(usize, usize)>,
) -> (r: Option<(usize, usize)>)
    requires
        last matches Some(l) ==> l.0 < plugins@.len() && l.1 < events,
    ensures
        r is Some <==> next_invocation(plugins@, events as int, last) is Some,
        r matches Some(n) ==> next_invocation(plugins@, events as int, last) == Some(
            (n.0 as int, n.1 as int),
        ) && n.0 < plugins@.len() && n.1 < events,
{
    let n: usize = plugins.len();
    let mut i: usize = 0;
    match last {
        Some((plugin, event)) => {
            if event + 1 < events {
                return Some((plugin, event + 1));
            }
            i = plugin + 1;
        },
        None => {},
    }
    if events == 0 {
        return None;
    }
    let ghost from = i as int;
    while i < n
        invariant
            i <= n == plugins@.len(),
            from <= i,
            events > 0,
            next_invocation(plugins@, events as int, last) == (match enabled_from(plugins@, from) {
                Some(next) => Some((next, 0int)),
                None => None,
            }),
            enabled_from(plugins@, from) == enabled_from(plugins@, i as int),
        decreases plugins@.len() - i,
    {
        if plugins[i].enabled {
            return Some((i, 0));
        }
        i = i + 1;
    }
    None
}

/// Notes what a plugin has asked for. `changed` tells whether adding the paper to
/// a group has changed anything.
pub fn note_plugin_action(outcome: &mut PluginOutcome, action: PluginAction, changed: bool)
    ensures
        match action {
            PluginAction::Notify { message } => *final(outcome) == (PluginOutcome {
                last_notify: Some(message),
                ..*old(outcome)
            }),
            PluginAction::AddToCollection { .. } => *final(outcome) == (PluginOutcome {
                organization_dirty: old(outcome).organization_dirty || changed,
                ..*old(outcome)
            }),
        },
{
    match action {
        PluginAction::Notify { message } => outcome.last_notify = Some(message),
        PluginAction::AddToCollection { .. } => {
            if changed {
                outcome.organization_dirty = true;
            }
        },
    }
}

/// Ends a round of plugin events. Where they have changed the groups, the lists
/// are read anew and the last message is shown.
pub fn dispatch_plugin_events(
    app: &mut App,
    outcome: PluginOutcome,
    data: Organization,
    papers: Vec<LibraryPaper>,
)
    ensures
        if outcome.organization_dirty {
            exists|mid: App|
                {
                    &&& #[trigger] lists_refreshed(*old(app), mid, data)
                    &&& *final(app) == (App {
                        library: LibraryState {
                            papers,
                            selected: clamped(mid.library.selected, papers@.len()),
                            ..mid.library
                        },
                        toast: if outcome.last_notify is Some {
                            outcome.last_notify
                        } else {
                            mid.toast
                        },
                        ..mid
                    })
                }
        } else {
            *final(app) == *old(app)
        },
{
    if outcome.organization_dirty {
        refresh_organization(app, data);
        let ghost mid = *app;
        refresh_library(&mut app.library, papers);
        if outcome.last_notify.is_some() {
            app.toast = outcome.last_notify;
        }
        assert(lists_refreshed(*old(app), mid, data));
    }
}

// ---------------------------------------------------------------------------
// What holds of all prompts
// ---------------------------------------------------------------------------

proof fn lemma_paper_with_id(papers: Seq<LibraryPaper>, id: i64, i: int, k: int)
    requires
        0 <= i <= k < papers.len(),
        papers[k].id == id,
        forall|j: int| i <= j < k ==> (#[trigger] papers[j]).id != id,
    ensures
        paper_with_id(papers, id, i) == Some(papers[k]),
    decreases k - i,
{
    if i < k {
        lemma_paper_with_id(papers, id, i + 1, k);
    }
}

proof fn lemma_no_paper_with_id(papers: Seq<LibraryPaper>, id: i64, i: int)
    requires
        0 <= i,
        forall|j: int| i <= j < papers.len() ==> (#[trigger] papers[j]).id != id,
    ensures
        paper_with_id(papers, id, i) is None,
    decreases papers.len() - i,
{
    if i < papers.len() {
        lemma_no_paper_with_id(papers, id, i + 1);
    }
}

proof fn lemma_group_place(items: Seq<CollectionSummary>, id: i64, i: int, k: int)
    requires
        0 <= i <= k < items.len(),
        items[k].id == id,
        forall|j: int| i <= j < k ==> (#[trigger] items[j]).id != id,
    ensures
        group_place(items, id, i) == Some(k),
    decreases k - i,
{
    if i < k {
        lemma_group_place(items, id, i + 1, k);
    }
}

proof fn lemma_group_named(items: Seq<CollectionSummary>, name: Seq<char>, i: int, k: int)
    requires
        0 <= i <= k <= items.len(),
        forall|j: int|
            i <= j < k ==> ascii_lowered((#[trigger] items[j]).name@) != ascii_lowered(name),
        k < items.len() ==> ascii_lowered(items[k].name@) == ascii_lowered(name),
    ensures
        group_named(items, name, i) == (if k < items.len() {
            Some(k)
        } else {
            None
        }),
    decreases k - i,
{
    if i < k {
        lemma_group_named(items, name, i + 1, k);
    }
}

/// A file that is renamed stays in its folder, however its path is written: what
/// changes is its name, to the typed one with the extension of documents.
pub proof fn lemma_renaming_keeps_the_folder(app: App, p: MetadataPrompt, root: Seq<char>)
    ensures
        prompt_plan(app, p, root) matches Ok(PlanView::RenameFile { paper_id, source, destination })
            ==> {
            let typed = trimmed(p.value@);
            &&& p.rename_paper_id == Some(paper_id)
            &&& exists|k: int|
                0 <= k < app.library.papers@.len() && (#[trigger] app.library.papers@[k]).id
                    == paper_id && opt_text(app.library.papers@[k].pdf_path) == Some(source)
            &&& ({
                let low = lower(typed);
                let name = if low.len() >= 4 && low.skip(low.len() - 4) == ".pdf"@ {
                    typed
                } else {
                    typed + ".pdf"@
                };
                entry_name(name) && file_name(source) is Some ==> {
                    &&& parent(destination) == parent(source)
                    &&& file_name(destination) == Some(name)
                    &&& components(destination) == components(source).drop_last().push(name)
                    &&& absolute(destination) == absolute(source)
                }
            })
        },
{
    reveal_strlit(".pdf");
    if prompt_plan(app, p, root) is Ok && prompt_plan(app, p, root)->Ok_0 is RenameFile {
        let id = p.rename_paper_id->0;
        let papers = app.library.papers@;
        let k = lemma_paper_found(papers, id, 0);
        assert(papers[k].id == id);
        let source = papers[k].pdf_path->0@;
        let name = document_name(trimmed(p.value@));
        if entry_name(name) && file_name(source) is Some {
            crate::paths::lemma_renamed_in_folder(source, name);
        }
        let low = lower(trimmed(p.value@));
        if low.len() >= 4 {
            assert(low.subrange(low.len() - 4, low.len() as int) =~= low.skip(low.len() - 4));
        }
    }
}

proof fn lemma_paper_found(papers: Seq<LibraryPaper>, id: i64, i: int) -> (k: int)
    requires
        0 <= i,
        paper_with_id(papers, id, i) is Some,
    ensures
        i <= k < papers.len(),
        papers[k].id == id,
        paper_with_id(papers, id, i) == Some(papers[k]),
    decreases papers.len() - i,
{
    if papers[i].id == id {
        i
    } else {
        lemma_paper_found(papers, id, i + 1)
    }
}

/// A document `old` in a folder that is given the name `new` becomes `new` in that
/// folder. The typed name gets the extension of documents unless it has it, in any
/// case; where the file keeps its name nothing is to be done.
pub proof fn lemma_document_is_renamed(
    app: App,
    p: MetadataPrompt,
    root: Seq<char>,
    k: int,
    folder: Seq<char>,
    old_name: Seq<char>,
    new_name: Seq<char>,
)
    requires
        p.rename_paper_id is Some,
        0 <= k < app.library.papers@.len(),
        app.library.papers@[k].id == p.rename_paper_id->0,
        forall|j: int| 0 <= j < k ==> (#[trigger] app.library.papers@[j]).id != p.rename_paper_id->0,
        plain_folder(folder),
        entry_name(old_name),
        opt_text(app.library.papers@[k].pdf_path) == Some(folder + seq!['/'] + old_name),
        trimmed(p.value@).len() > 0,
        !trimmed(p.value@).contains('/') && !trimmed(p.value@).contains('\\'),
        new_name == (if lower(trimmed(p.value@)).len() >= 4 && lower(trimmed(p.value@)).skip(
            lower(trimmed(p.value@)).len() - 4,
        ) == ".pdf"@ {
            trimmed(p.value@)
        } else {
            trimmed(p.value@) + ".pdf"@
        }),
        entry_name(new_name),
    ensures
        prompt_plan(app, p, root) == Ok::<PlanView, Seq<char>>(
            if new_name == old_name {
                PlanView::Nothing
            } else {
                PlanView::RenameFile {
                    paper_id: p.rename_paper_id->0,
                    source: folder + seq!['/'] + old_name,
                    destination: folder + seq!['/'] + new_name,
                }
            },
        ),
{
    reveal_strlit(".pdf");
    let id = p.rename_paper_id->0;
    lemma_paper_with_id(app.library.papers@, id, 0, k);
    crate::paths::lemma_entry_of_folder(folder, old_name, new_name);
    crate::paths::lemma_entry_of_folder(folder, new_name, old_name);
    let low = lower(trimmed(p.value@));
    if low.len() >= 4 {
        assert(low.subrange(low.len() - 4, low.len() as int) =~= low.skip(low.len() - 4));
    }
    assert(document_name(trimmed(p.value@)) == new_name);
    let c = components(folder);
    if c.push(old_name) == c.push(new_name) {
        assert(c.push(old_name).last() == c.push(new_name).last());
    }
}

/// What is refused of a file to be renamed: a name with a separator, a paper that is
/// not there, and one without a file. Nothing typed asks for nothing.
pub proof fn lemma_renaming_is_refused(app: App, p: MetadataPrompt, root: Seq<char>)
    requires
        p.rename_paper_id is Some,
    ensures
        ({
            let typed = trimmed(p.value@);
            let plan = prompt_plan(app, p, root);
            let there = exists|j: int|
                0 <= j < app.library.papers@.len() && (#[trigger] app.library.papers@[j]).id
                    == p.rename_paper_id->0;
            &&& typed.len() == 0 ==> plan == Ok::<PlanView, Seq<char>>(PlanView::Nothing)
            &&& typed.len() > 0 && (typed.contains('/') || typed.contains('\\')) ==> plan == Err::<
                PlanView,
                Seq<char>,
            >("filename must not contain path separators"@)
            &&& typed.len() > 0 && !typed.contains('/') && !typed.contains('\\') && !there ==> plan
                == Err::<PlanView, Seq<char>>("paper not found"@)
            &&& plan is Ok && typed.len() > 0 ==> there
            &&& plan matches Ok(q) ==> q is Nothing || q is RenameFile
        }),
{
    let papers = app.library.papers@;
    let id = p.rename_paper_id->0;
    if paper_with_id(papers, id, 0) is Some {
        let k = lemma_paper_found(papers, id, 0);
        assert(papers[k].id == id);
    }
    if !exists|j: int| 0 <= j < papers.len() && (#[trigger] papers[j]).id == id {
        lemma_no_paper_with_id(papers, id, 0);
    }
}

/// A paper that is put into a group takes its file along: into the folder of the group
/// of that name, or, where there is none yet, into a folder of that name below the
/// root. The file keeps its name.
pub proof fn lemma_assigned_file_goes_to_its_group(
    app: App,
    p: MetadataPrompt,
    root: Seq<char>,
    k: int,
    source_folder: Seq<char>,
    file: Seq<char>,
    g: int,
)
    requires
        p.rename_paper_id is None && p.rename_collection_id is None && p.paper_id is Some,
        0 <= k < app.library.papers@.len(),
        app.library.papers@[k].id == p.paper_id->0,
        forall|j: int| 0 <= j < k ==> (#[trigger] app.library.papers@[j]).id != p.paper_id->0,
        plain_folder(source_folder),
        entry_name(file),
        opt_text(app.library.papers@[k].pdf_path) == Some(source_folder + seq!['/'] + file),
        entry_name(trimmed(p.value@)),
        !trimmed(p.value@).contains('\\'),
        plain_folder(root),
        0 <= g <= app.collections.items@.len(),
        forall|j: int|
            0 <= j < g ==> ascii_lowered((#[trigger] app.collections.items@[j]).name@)
                != ascii_lowered(trimmed(p.value@)),
        g < app.collections.items@.len() ==> app.collections.items@[g].name@ == trimmed(p.value@)
            && (app.collections.items@[g].folder_path matches Some(f) ==> plain_folder(f@)),
    ensures
        ({
            let name = trimmed(p.value@);
            let items = app.collections.items@;
            let folder = if g < items.len() && items[g].folder_path is Some {
                items[g].folder_path->0@
            } else {
                root + seq!['/'] + name
            };
            prompt_plan(app, p, root) == Ok::<PlanView, Seq<char>>(
                PlanView::Assign {
                    paper_id: p.paper_id->0,
                    group: if g < items.len() {
                        Some(items[g].id)
                    } else {
                        None
                    },
                    name,
                    folder,
                    source: source_folder + seq!['/'] + file,
                    destination: folder + seq!['/'] + file,
                    moves: components(folder) != components(source_folder) || absolute(folder)
                        != absolute(source_folder),
                },
            )
        }),
{
    let id = p.paper_id->0;
    let name = trimmed(p.value@);
    let items = app.collections.items@;
    lemma_paper_with_id(app.library.papers@, id, 0, k);
    lemma_group_named(items, name, 0, g);
    lemma_typed_name_is_safe(name);
    crate::paths::lemma_entry_of_folder(root, name, file);
    let folder = if g < items.len() && items[g].folder_path is Some {
        items[g].folder_path->0@
    } else {
        root + seq!['/'] + name
    };
    assert(folder_for(items, name, root) == folder);
    assert(plain_folder(folder)) by {
        if !(g < items.len() && items[g].folder_path is Some) {
            assert(folder.last() == name.last());
            if name.len() > 1 {
                assert(folder[folder.len() - 2] == name[name.len() - 2]);
            }
        }
    }
    crate::paths::lemma_entry_of_folder(source_folder, file, file);
    crate::paths::lemma_entry_of_folder(folder, file, file);
    let a = components(folder);
    let b = components(source_folder);
    if a.push(file) == b.push(file) {
        assert(a.push(file).drop_last() =~= a);
        assert(b.push(file).drop_last() =~= b);
    }
}

proof fn lemma_typed_name_is_safe(name: Seq<char>)
    requires
        entry_name(name),
        !name.contains('\\'),
    ensures
        safe_name(name),
{
    reveal_strlit(".");
    reveal_strlit("..");
    if name.contains('/') {
        let i = name.index_of('/');
        assert(name[i] == '/');
    }
}

/// A new group gets a folder of its name below the root. It is refused exactly where
/// there is a group of that name already, in whatever case of letters.
pub proof fn lemma_new_group_gets_a_folder(app: App, p: MetadataPrompt, root: Seq<char>)
    requires
        p.rename_paper_id is None && p.rename_collection_id is None && p.paper_id is None,
        entry_name(trimmed(p.value@)),
        !trimmed(p.value@).contains('\\'),
        plain_folder(root),
    ensures
        ({
            let name = trimmed(p.value@);
            let taken = exists|j: int|
                0 <= j < app.collections.items@.len() && ascii_lowered(
                    (#[trigger] app.collections.items@[j]).name@,
                ) == ascii_lowered(name);
            &&& !taken ==> prompt_plan(app, p, root) == Ok::<PlanView, Seq<char>>(
                PlanView::CreateGroup { name, folder: root + seq!['/'] + name },
            )
            &&& taken ==> prompt_plan(app, p, root) == Err::<PlanView, Seq<char>>(
                "a group with this name already exists"@,
            )
        }),
{
    let name = trimmed(p.value@);
    let items = app.collections.items@;
    lemma_typed_name_is_safe(name);
    crate::paths::lemma_entry_of_folder(root, name, name);
    if !exists|j: int|
        0 <= j < items.len() && ascii_lowered((#[trigger] items[j]).name@) == ascii_lowered(name) {
        lemma_group_named(items, name, 0, items.len() as int);
    } else {
        lemma_some_group_named(items, name, 0);
    }
}

proof fn lemma_some_group_named(items: Seq<CollectionSummary>, name: Seq<char>, i: int)
    requires
        0 <= i,
        exists|j: int|
            i <= j < items.len() && ascii_lowered((#[trigger] items[j]).name@) == ascii_lowered(
                name,
            ),
    ensures
        group_named(items, name, i) is Some,
    decreases items.len() - i,
{
    if ascii_lowered(items[i].name@) != ascii_lowered(name) {
        lemma_some_group_named(items, name, i + 1);
    }
}

/// A group that is renamed keeps the place of its folder: the new folder lies beside
/// the old one and has the typed name.
pub proof fn lemma_renamed_group_stays_in_place(
    app: App,
    p: MetadataPrompt,
    root: Seq<char>,
    g: int,
    above: Seq<char>,
    old_name: Seq<char>,
)
    requires
        p.rename_paper_id is None && p.rename_collection_id is Some,
        0 <= g < app.collections.items@.len(),
        app.collections.items@[g].id == p.rename_collection_id->0,
        forall|j: int|
            0 <= j < g ==> (#[trigger] app.collections.items@[j]).id != p.rename_collection_id->0,
        plain_folder(above),
        entry_name(old_name),
        match app.collections.items@[g].folder_path {
            Some(f) => f@ == above + seq!['/'] + old_name,
            None => above == root && app.collections.items@[g].name@ == old_name,
        },
        entry_name(trimmed(p.value@)),
        !trimmed(p.value@).contains('\\'),
    ensures
        prompt_plan(app, p, root) == Ok::<PlanView, Seq<char>>(
            PlanView::RenameGroup {
                collection_id: p.rename_collection_id->0,
                name: trimmed(p.value@),
                old_folder: above + seq!['/'] + old_name,
                new_folder: above + seq!['/'] + trimmed(p.value@),
            },
        ),
{
    let name = trimmed(p.value@);
    lemma_group_place(app.collections.items@, p.rename_collection_id->0, 0, g);
    lemma_typed_name_is_safe(name);
    crate::paths::lemma_entry_of_folder(above, old_name, name);
    crate::paths::lemma_entry_of_folder(above, name, old_name);
}

/// No group gets a name that is not that of one folder.
pub proof fn lemma_unsafe_group_names_are_refused(app: App, p: MetadataPrompt, root: Seq<char>)
    requires
        p.rename_paper_id is None,
        trimmed(p.value@).len() > 0,
    ensures
        ({
            let name = trimmed(p.value@);
            let climbing = (name.len() == 1 && name[0] == '.') || (name.len() == 2 && name[0] == '.'
                && name[1] == '.');
            name.contains('/') || name.contains('\\') || climbing ==> prompt_plan(app, p, root)
                == Err::<PlanView, Seq<char>>("group name must be one safe directory name"@)
        }),
{
    reveal_strlit(".");
    reveal_strlit("..");
    let name = trimmed(p.value@);
    if name.len() == 1 && name[0] == '.' {
        assert(name =~= "."@);
    }
    if name.len() == 2 && name[0] == '.' && name[1] == '.' {
        assert(name =~= ".."@);
    }
}

/// A file in a folder of the root belongs to the group of that folder, and one in the
/// root itself to none.
pub proof fn lemma_folder_tells_the_group(root: Seq<char>, folder: Seq<char>, file: Seq<char>)
    requires
        plain_folder(root),
        entry_name(folder),
        entry_name(file),
    ensures
        folder_below(root + seq!['/'] + folder + seq!['/'] + file, root) == Some(folder),
        folder_below(root + seq!['/'] + file, root) is None,
        inside(root + seq!['/'] + folder + seq!['/'] + file, root),
{
    let dir = root + seq!['/'] + folder;
    crate::paths::lemma_entry_of_folder(root, folder, file);
    crate::paths::lemma_entry_of_folder(root, file, file);
    assert(plain_folder(dir)) by {
        assert(dir.last() == folder.last());
        if folder.len() > 1 {
            assert(dir[dir.len() - 2] == folder[folder.len() - 2]);
        }
    }
    crate::paths::lemma_entry_of_folder(dir, file, file);
    let c = components(root);
    let n = c.len() as int;
    assert(c.push(folder).take(n) =~= c);
    assert(c.push(folder).skip(n) =~= seq![folder]);
    assert(c.push(folder).push(file).take(n) =~= c);
    assert(crate::strings::joined(seq![folder], "/"@) == folder);
    assert(c.take(n) =~= c);
    assert(c.skip(n) =~= Seq::empty());
}

proof fn lemma_enabled_from(plugins: Seq<PluginInfo>, i: int)
    requires
        0 <= i,
    ensures
        match enabled_from(plugins, i) {
            Some(k) => i <= k < plugins.len() && plugins[k].enabled && forall|j: int|
                i <= j < k ==> !(#[trigger] plugins[j]).enabled,
            None => forall|j: int| i <= j < plugins.len() ==> !(#[trigger] plugins[j]).enabled,
        },
    decreases plugins.len() - i,
{
    if i < plugins.len() && !plugins[i].enabled {
        lemma_enabled_from(plugins, i + 1);
    }
}

/// Every plugin in use gets every event, in order, and no other plugin gets any: what
/// is next is the next event of the same plugin or, after the last one, the first event
/// of the next plugin in use.
pub proof fn lemma_plugins_get_every_event(
    plugins: Seq<PluginInfo>,
    events: int,
    last: Option<(usize, usize)>,
)
    requires
        events > 0,
        last matches Some(l) ==> l.0 < plugins.len() && l.1 < events && plugins[l.0 as int].enabled,
    ensures
        ({
            let from = match last {
                Some(l) => l.0 + 1,
                None => 0,
            };
            match next_invocation(plugins, events, last) {
                Some((k, e)) => {
                    &&& 0 <= k < plugins.len() && 0 <= e < events
                    &&& plugins[k].enabled
                    &&& (last matches Some(l) && l.1 + 1 < events) ==> k == (last->0).0 && e
                        == (last->0).1 + 1
                    &&& !(last matches Some(l) && l.1 + 1 < events) ==> e == 0 && from <= k
                        && forall|j: int| from <= j < k ==> !(#[trigger] plugins[j]).enabled
                },
                None => {
                    &&& last matches Some(l) ==> l.1 + 1 == events
                    &&& forall|j: int| from <= j < plugins.len() ==> !(#[trigger] plugins[j]).enabled
                },
            }
        }),
{
    lemma_enabled_from(plugins, 0);
    if let Some(l) = last {
        lemma_enabled_from(plugins, l.0 + 1);
    }
}

/// A file belongs to one root: the deepest of those that hold it.
pub proof fn lemma_file_has_one_root(roots: Seq<String>, path: Seq<char>, j: int, k: int)
    requires
        root_of(roots, path, k),
        0 <= j < roots.len(),
        inside(path, roots[j]@),
    ensures
        components(roots[j]@).len() <= components(roots[k]@).len(),
        inside(path, roots[k]@),
        root_of(roots, path, j) ==> j == k,
{
}

/// The download of a paper is the first that names it, where one does.
pub proof fn lemma_download_of_a_paper(tasks: Seq<DownloadTask>, id: i64)
    ensures
        match task_of_paper(tasks, id, 0) {
            Some(k) => 0 <= k < tasks.len() && tasks[k].paper_id == Some(id) && forall|j: int|
                0 <= j < k ==> (#[trigger] tasks[j]).paper_id != Some(id),
            None => forall|j: int| 0 <= j < tasks.len() ==> (#[trigger] tasks[j]).paper_id != Some(id),
        },
{
    lemma_download_of_paper_from(tasks, id, 0);
}

proof fn lemma_download_of_paper_from(tasks: Seq<DownloadTask>, id: i64, i: int)
    requires
        0 <= i <= tasks.len(),
    ensures
        match task_of_paper(tasks, id, i) {
            Some(k) => i <= k < tasks.len() && tasks[k].paper_id == Some(id) && forall|j: int|
                i <= j < k ==> (#[trigger] tasks[j]).paper_id != Some(id),
            None => forall|j: int| i <= j < tasks.len() ==> (#[trigger] tasks[j]).paper_id != Some(id),
        },
    decreases tasks.len() - i,
{
    if i < tasks.len() && tasks[i].paper_id != Some(id) {
        lemma_download_of_paper_from(tasks, id, i + 1);
    }
}

/// The open author stays the one with the same identifier when authors are read anew.
pub proof fn lemma_author_is_known_by_id(items: Seq<AuthorSummary>, id: i64)
    ensures
        match author_with_id(items, id, 0) {
            Some(a) => a.id == id && items.contains(a),
            None => forall|j: int| 0 <= j < items.len() ==> (#[trigger] items[j]).id != id,
        },
{
    lemma_author_from(items, id, 0);
}

proof fn lemma_author_from(items: Seq<AuthorSummary>, id: i64, i: int)
    requires
        0 <= i <= items.len(),
    ensures
        match author_with_id(items, id, i) {
            Some(a) => a.id == id && items.contains(a),
            None => forall|j: int| i <= j < items.len() ==> (#[trigger] items[j]).id != id,
        },
    decreases items.len() - i,
{
    if i < items.len() {
        if items[i].id == id {
            assert(items.contains(items[i]));
        } else {
            lemma_author_from(items, id, i + 1);
        }
    }
}

/// A prompt starts with nothing typed, for what it was asked for.
pub proof fn lemma_prompt_starts_empty(
    p: MetadataPrompt,
    paper_id: Option<i64>,
    group_id: Option<i64>,
    renamed_id: Option<i64>,
    current: Option<Seq<char>>,
)
    requires
        empty_prompt(p, paper_id, group_id, renamed_id, current),
    ensures
        p.value@ == Seq::<char>::empty() && p.cursor == 0,
        p.paper_id == paper_id && p.rename_collection_id == group_id && p.rename_paper_id
            == renamed_id,
        p.selected == 0,
{
    assert(p.value@ =~= Seq::<char>::empty());
}

/// When the lists are read anew, they show what was read. A group or an author that is
/// open stays open while it is there, with the papers that were read for it, and each
/// selection stays within its list.
pub proof fn lemma_lists_show_what_was_read(before: App, after: App, data: Organization)
    requires
        lists_refreshed(before, after, data),
    ensures
        after.collections.items == data.groups,
        after.bookmarks.items == data.bookmarks,
        after.authors.items == data.authors,
        after.notes.papers == data.notes,
        after.queue.papers == data.queue,
        data.bookmarks@.len() > 0 ==> after.bookmarks.selected < data.bookmarks@.len(),
        data.queue@.len() > 0 ==> after.queue.selected < data.queue@.len(),
        data.notes@.len() > 0 ==> after.notes.selected < data.notes@.len(),
        before.queue.selected < data.queue@.len() ==> after.queue.selected
            == before.queue.selected,
        before.collections.active is None ==> after.collections.active is None,
        before.collections.active is Some ==> after.collections.papers == data.group_papers,
        before.authors.active is Some && after.authors.active is Some ==> after.authors.active->0.id
            == before.authors.active->0.id && after.authors.papers == data.author_papers,
        after.library == before.library && after.page == before.page && after.mode == before.mode,
{
    if before.authors.active is Some {
        lemma_author_is_known_by_id(data.authors@, before.authors.active->0.id);
    }
}

} // verus!
