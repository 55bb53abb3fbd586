//! What happens to a writing project: opening it, its files, and its builds.

use crate::model::{App, PdfState, Project, ProjectPane, ProjectState};
use crate::paths::{
    below, components, entry_name, file_name, file_name_of, inside, is_project_text_file,
    is_project_tree_file, join_path, joined_path, opt_key, path_key, plain_folder, same_path,
    strip_folder, text_file, tree_file,
};
use crate::project_editor::{fresh_memory, no_memory};
use crate::projects::{file_at, find_project, project_at, with_project};
use crate::strings::{
    ascii_lower_text, ascii_lowered, concat, contains_text, ends_with, joined, lex_le, occurs,
    occurs_at, opt_text, same_text, text_le, texts, trim, trimmed,
};
use crate::text::to_chars;
use vstd::prelude::*;

verus! {

/// An entry of a folder.
#[derive(Debug)]
pub struct FolderEntry {
    pub path: String,
    pub name: String,
    pub is_directory: bool,
}

/// Whether the file tree shows an entry: folders, texts and images, but not the
/// folder of the version control.
pub open spec fn entry_shown(e: FolderEntry) -> bool {
    e.name@ != ".git"@ && (e.is_directory || tree_file(e.path@))
}

/// Whether entry `a` comes before entry `b`: folders first, then by name.
pub open spec fn entry_le(a: FolderEntry, b: FolderEntry) -> bool {
    if a.is_directory != b.is_directory {
        a.is_directory
    } else {
        lex_le(a.name@, b.name@)
    }
}

/// The same between positions: equals stay in the order they were listed.
pub open spec fn entry_before(entries: Seq<FolderEntry>, a: int, b: int) -> bool {
    entry_le(entries[a], entries[b]) && (a < b || !entry_le(entries[b], entries[a]))
}

/// Whether `order` lists the shown ones among the first `n` entries as the file
/// tree does.
pub open spec fn tree_order(entries: Seq<FolderEntry>, order: Seq<usize>, n: int) -> bool {
    &&& forall|i: int|
        0 <= i < order.len() ==> (#[trigger] order[i]) < n && entry_shown(entries[order[i] as int])
    &&& forall|i: int, j: int|
        0 <= i < j < order.len() ==> entry_before(
            entries,
            #[trigger] order[i] as int,
            #[trigger] order[j] as int,
        )
    &&& forall|k: int|
        0 <= k < n && entry_shown(#[trigger] entries[k]) ==> order.contains(k as usize)
}

fn entry_at_most(a: &FolderEntry, b: &FolderEntry) -> (r: bool)
    ensures
        r == entry_le(*a, *b),
{
    if a.is_directory != b.is_directory {
        return a.is_directory;
    }
    let p = to_chars(a.name.as_str());
    let q = to_chars(b.name.as_str());
    text_le(&p, &q)
}

proof fn lemma_entry_order(a: FolderEntry, b: FolderEntry, c: FolderEntry)
    ensures
        entry_le(a, b) || entry_le(b, a),
        entry_le(a, b) && entry_le(b, c) ==> entry_le(a, c),
{
    crate::strings::lemma_lex_total(a.name@, b.name@);
    if lex_le(a.name@, b.name@) && lex_le(b.name@, c.name@) {
        crate::strings::lemma_lex_transitive(a.name@, b.name@, c.name@);
    }
}

fn order_entries(entries: &Vec<FolderEntry>) -> (order: Vec<usize>)
    ensures
        tree_order(entries@, order@, entries@.len() as int),
{
    let mut order: Vec<usize> = Vec::new();
    let mut n: usize = 0;
    while n < entries.len()
        invariant
            n <= entries@.len(),
            order@.len() <= n,
            tree_order(entries@, order@, n as int),
        decreases entries@.len() - n,
    {
        let e = &entries[n];
        let shown: bool = !same_text(e.name.as_str(), ".git") && (e.is_directory
            || is_project_tree_file(e.path.as_str()));
        let ghost before = order@;
        if shown {
            let m: usize = order.len();
            let mut k: usize = m;
            while k > 0 && !entry_at_most(&entries[order[k - 1]], &entries[n])
                invariant
                    k <= m == order@.len(),
                    m <= n < entries@.len(),
                    tree_order(entries@, order@, n as int),
                    forall|i: int|
                        k <= i < m ==> !entry_le(
                            entries@[(#[trigger] order@[i]) as int],
                            entries@[n as int],
                        ),
                decreases k,
            {
                k = k - 1;
            }
            order.insert(k, n);
            proof {
                let all = entries@;
                assert forall|i: int, j: int| 0 <= i < j < order@.len() implies entry_before(
                    all,
                    #[trigger] order@[i] as int,
                    #[trigger] order@[j] as int,
                ) by {
                    let a = if i < k {
                        i
                    } else {
                        i - 1
                    };
                    let b = if j < k {
                        j
                    } else {
                        j - 1
                    };
                    if i == k {
                        assert(order@[j] == before[b]);
                        lemma_entry_order(all[before[b] as int], all[n as int], all[n as int]);
                    } else if j == k {
                        assert(order@[i] == before[a]);
                        if a < k - 1 {
                            assert(entry_before(all, before[a] as int, before[k - 1] as int));
                            lemma_entry_order(
                                all[before[a] as int],
                                all[before[k - 1] as int],
                                all[n as int],
                            );
                        }
                    } else {
                        assert(order@[i] == before[a]);
                        assert(order@[j] == before[b]);
                    }
                }
                assert forall|i: int| 0 <= i < order@.len() implies (#[trigger] order@[i]) < n + 1
                    && entry_shown(all[order@[i] as int]) by {
                    if i < k {
                        assert(order@[i] == before[i]);
                    } else if i > k {
                        assert(order@[i] == before[i - 1]);
                    }
                }
                assert forall|x: int| 0 <= x < n + 1 && entry_shown(
                    #[trigger] all[x],
                ) implies order@.contains(x as usize) by {
                    if x == n {
                        assert(order@[k as int] == n);
                    } else {
                        assert(before.contains(x as usize));
                        let i = before.index_of(x as usize);
                        if i < k {
                            assert(order@[i] == before[i]);
                        } else {
                            assert(order@[i + 1] == before[i]);
                        }
                    }
                }
            }
        }
        n = n + 1;
    }
    order
}

/// The entries of a folder as the file tree shows them.
pub fn project_tree_entries(entries: &Vec<FolderEntry>) -> (r: Vec<String>)
    ensures
        exists|order: Seq<usize>| #[trigger]
            tree_order(entries@, order, entries@.len() as int) && texts(r@) == Seq::new(
                order.len(),
                |i: int| entries@[order[i] as int].path@,
            ),
{
    let order = order_entries(entries);
    let mut r: Vec<String> = Vec::new();
    let mut i: usize = 0;
    while i < order.len()
        invariant
            i <= order@.len(),
            tree_order(entries@, order@, entries@.len() as int),
            r@.len() == i,
            forall|j: int| 0 <= j < i ==> (#[trigger] r@[j])@ == entries@[order@[j] as int].path@,
        decreases order@.len() - i,
    {
        r.push(entries[order[i]].path.clone());
        i = i + 1;
    }
    assert(texts(r@) =~= Seq::new(order@.len(), |i: int| entries@[order@[i] as int].path@));
    r
}

/// The first of `files` from `i` on that is the main source of a project.
pub open spec fn main_source(files: Seq<String>, i: int) -> Option<String>
    decreases files.len() - i,
{
    if i >= files.len() {
        None
    } else if file_name(files[i]@) == Some("main.tex"@) {
        Some(files[i])
    } else {
        main_source(files, i + 1)
    }
}

fn find_main(files: &Vec<String>) -> (r: Option<String>)
    ensures
        opt_text(r) == opt_text(main_source(files@, 0)),
{
    let mut i: usize = 0;
    while i < files.len()
        invariant
            i <= files@.len(),
            main_source(files@, 0) == main_source(files@, i as int),
        decreases files@.len() - i,
    {
        let main: bool = match file_name_of(files[i].as_str()) {
            Some(name) => same_text(name.as_str(), "main.tex"),
            None => false,
        };
        if main {
            return Some(files[i].clone());
        }
        i = i + 1;
    }
    None
}

/// What has to be done when a project is opened: show its document, in another
/// program where `external`, and read its main source.
#[derive(Debug)]
pub struct WorkspaceOpening {
    pub document: Option<String>,
    pub external: bool,
    pub main_source: Option<String>,
}

/// The state of a project that has just been opened.
pub open spec fn project_opened(before: ProjectState, after: ProjectState, project: Project, files: Vec<String>) -> bool {
    &&& after == ProjectState {
        tree_dir: after.tree_dir,
        files,
        file_selected: 0,
        editor_path: None,
        editor_text: after.editor_text,
        editor_dirty: false,
        editor_cursor: 0,
        editor_insert_mode: false,
        editor_memory: after.editor_memory,
        editor_scroll: 0,
        build_status: after.build_status,
        build_errors: after.build_errors,
        build_scroll: 0,
        pane: ProjectPane::FileTree,
        active: Some(project),
        ..before
    }
    &&& opt_text(after.tree_dir) == Some(project.path@)
    &&& after.editor_text@.len() == 0
    &&& after.editor_memory@ == no_memory()
    &&& after.build_status@ == "Starting latexmk…"@
    &&& after.build_errors@.len() == 0
}

/// Opens a project. `document_pages` is the number of pages of the document that
/// an earlier build has left, where there is one.
pub fn open_project_workspace(
    app: &mut App,
    project: Project,
    files: Vec<String>,
    document_pages: Option<usize>,
) -> (r: WorkspaceOpening)
    ensures
        *final(app) == (App { project: final(app).project, pdf: final(app).pdf, ..*old(app) }),
        project_opened(old(app).project, final(app).project, project, files),
        match document_pages {
            Some(pages) => {
                &&& final(app).pdf == (PdfState {
                    path: final(app).pdf.path,
                    on_disk: true,
                    total_pages: pages,
                    page: 1,
                    scroll_y: 0,
                    ..old(app).pdf
                })
                &&& opt_text(final(app).pdf.path) == Some(
                    joined_path(project.path@, "main.pdf"@),
                )
                &&& opt_text(r.document) == opt_text(final(app).pdf.path)
                &&& r.external == (old(app).pdf.viewer@ != "internal"@)
            },
            None => final(app).pdf == old(app).pdf && r.document is None && !r.external,
        },
        opt_text(r.main_source) == opt_text(main_source(files@, 0)),
{
    let main = find_main(&files);
    let p = &mut app.project;
    p.tree_dir = Some(project.path.clone());
    p.files = files;
    p.file_selected = 0;
    p.editor_path = None;
    p.editor_text = String::new();
    p.editor_dirty = false;
    p.editor_cursor = 0;
    p.editor_insert_mode = false;
    p.editor_memory = fresh_memory();
    p.editor_scroll = 0;
    p.build_status = "Starting latexmk…".to_owned();
    p.build_errors = Vec::new();
    p.build_scroll = 0;
    p.pane = ProjectPane::FileTree;
    let document = join_path(project.path.as_str(), "main.pdf");
    p.active = Some(project);
    match document_pages {
        Some(pages) => {
            app.pdf.path = Some(document.clone());
            app.pdf.on_disk = true;
            app.pdf.total_pages = pages;
            app.pdf.page = 1;
            app.pdf.scroll_y = 0;
            let external: bool = !same_text(app.pdf.viewer.as_str(), "internal");
            WorkspaceOpening { document: Some(document), external, main_source: main }
        },
        None => WorkspaceOpening { document: None, external: false, main_source: main },
    }
}

/// Puts the main source of a project that was opened into the editor.
pub fn main_source_read(p: &mut ProjectState, path: String, text: String)
    ensures
        *final(p) == (ProjectState {
            editor_text: text,
            editor_path: Some(path),
            editor_cursor: 0,
            editor_memory: final(p).editor_memory,
            ..*old(p)
        }),
        final(p).editor_memory@ == no_memory(),
{
    p.editor_text = text;
    p.editor_path = Some(path);
    p.editor_cursor = 0;
    p.editor_memory = fresh_memory();
}

/// The state once a file was read into the editor.
pub open spec fn file_shown(before: ProjectState, after: ProjectState, path: String, text: String) -> bool {
    &&& after == ProjectState {
        editor_text: text,
        editor_path: Some(path),
        editor_dirty: false,
        editor_cursor: 0,
        editor_insert_mode: false,
        editor_memory: after.editor_memory,
        editor_scroll: 0,
        pane: ProjectPane::Editor,
        ..before
    }
    &&& after.editor_memory@ == no_memory()
}

/// Opens a file in the editor, or tells why it cannot be read.
pub fn open_project_file(app: &mut App, path: String, read: Result<String, String>)
    ensures
        match read {
            Ok(text) => *final(app) == with_project(*old(app), final(app).project) && file_shown(
                old(app).project,
                final(app).project,
                path,
                text,
            ),
            Err(error) => *final(app) == (App { toast: final(app).toast, ..*old(app) }) && opt_text(
                final(app).toast,
            ) == Some("Could not open file: "@ + error@),
        },
{
    match read {
        Ok(text) => {
            let p = &mut app.project;
            p.editor_text = text;
            p.editor_path = Some(path);
            p.editor_dirty = false;
            p.editor_cursor = 0;
            p.editor_insert_mode = false;
            p.editor_memory = fresh_memory();
            p.editor_scroll = 0;
            p.pane = ProjectPane::Editor;
        },
        Err(error) => {
            app.toast = Some(concat("Could not open file: ", error.as_str()));
        },
    }
}

/// Shows the projects; the selected row stays in reach.
pub fn projects_listed(p: &mut ProjectState, items: Vec<Project>)
    ensures
        *final(p) == (ProjectState {
            items,
            selected: crate::downloads::clamped(old(p).selected, items@.len()),
            ..*old(p)
        }),
{
    p.selected = crate::downloads::clamp_selected(p.selected, items.len());
    p.items = items;
}

/// Position of a project, or 0.
pub open spec fn project_row(items: Seq<Project>, path: Seq<char>) -> int {
    match project_at(items, path, 0) {
        Some(i) => i,
        None => 0,
    }
}

fn row_of_project(items: &Vec<Project>, path: &str) -> (r: usize)
    ensures
        r == project_row(items@, path@),
{
    match find_project(items, path) {
        Some(i) => i,
        None => 0,
    }
}

/// Shows the projects with a new or renamed one selected, and tells the user.
pub fn project_announced(app: &mut App, verb: &str, project: &Project, items: Vec<Project>)
    ensures
        *final(app) == (App {
            toast: final(app).toast,
            project: ProjectState {
                items,
                selected: project_row(items@, project.path@) as usize,
                ..old(app).project
            },
            ..*old(app)
        }),
        opt_text(final(app).toast) == Some(verb@ + project.name@),
{
    app.project.selected = row_of_project(&items, project.path.as_str());
    app.project.items = items;
    app.toast = Some(concat(verb, project.name.as_str()));
}

fn find_file(files: &Vec<String>, path: &str) -> (r: usize)
    ensures
        r == file_at(files@, path@, 0),
{
    let mut i: usize = 0;
    while i < files.len()
        invariant
            i <= files@.len(),
            file_at(files@, path@, 0) == file_at(files@, path@, i as int),
        decreases files@.len() - i,
    {
        if same_path(files[i].as_str(), path) {
            return i;
        }
        i = i + 1;
    }
    0
}

/// Whether a typed name asks for a folder.
pub open spec fn asks_folder(name: Seq<char>) -> bool {
    occurs_at(trimmed(name), "/"@, trimmed(name).len() - 1)
}

/// Shows a new file or folder in the file tree. `text` is what a new file of text
/// holds.
pub fn entry_created(
    app: &mut App,
    name: &str,
    path: String,
    files: Vec<String>,
    text: Option<Result<String, String>>,
)
    ensures
        ({
            let listed = ProjectState {
                files,
                file_selected: file_at(files@, path@, 0) as usize,
                pane: ProjectPane::FileTree,
                ..old(app).project
            };
            &&& *final(app) == (App {
                toast: final(app).toast,
                project: final(app).project,
                ..*old(app)
            })
            &&& match text {
                Some(Ok(t)) => if text_file(path@) {
                    file_shown(listed, final(app).project, path, t)
                } else {
                    final(app).project == listed
                },
                _ => final(app).project == listed,
            }
            &&& opt_text(final(app).toast) == Some(
                if asks_folder(name@) {
                    "Created folder"@
                } else {
                    "Created file"@
                },
            )
        }),
{
    app.project.file_selected = find_file(&files, path.as_str());
    app.project.files = files;
    app.project.pane = ProjectPane::FileTree;
    match text {
        Some(read) => {
            if is_project_text_file(path.as_str()) {
                open_project_file(app, path, read);
            }
        },
        None => {},
    }
    proof {
        reveal_strlit("/");
    }
    let folder: bool = ends_with(trim(name).as_str(), "/");
    app.toast = Some(
        if folder {
            "Created folder".to_owned()
        } else {
            "Created file".to_owned()
        },
    );
}

/// Where an open file is once `path` has become `renamed`: there, below it as
/// before, or where it was.
pub open spec fn moved_path(editor: Seq<char>, path: Seq<char>, renamed: Seq<char>) -> Seq<char> {
    if !inside(editor, path) {
        editor
    } else if below(editor, path).len() == 0 {
        renamed
    } else {
        joined_path(renamed, below(editor, path))
    }
}

/// Shows a renamed entry in the file tree. An open file below it stays open.
pub fn entry_renamed(app: &mut App, path: &str, renamed: &str, files: Vec<String>)
    ensures
        *final(app) == (App {
            toast: final(app).toast,
            project: ProjectState {
                editor_path: final(app).project.editor_path,
                files,
                file_selected: file_at(files@, renamed@, 0) as usize,
                ..old(app).project
            },
            ..*old(app)
        }),
        opt_text(final(app).toast) == Some("Renamed"@),
        opt_text(final(app).project.editor_path) == (match old(app).project.editor_path {
            Some(editor) => Some(moved_path(editor@, path@, renamed@)),
            None => None,
        }),
{
    let moved: Option<String> = match &app.project.editor_path {
        Some(editor) => match strip_folder(editor.as_str(), path) {
            Some(rest) => if rest.as_str().is_empty() {
                Some(renamed.to_owned())
            } else {
                Some(join_path(renamed, rest.as_str()))
            },
            None => Some(editor.clone()),
        },
        None => None,
    };
    app.project.editor_path = moved;
    app.project.file_selected = find_file(&files, renamed);
    app.project.files = files;
    app.toast = Some("Renamed".to_owned());
}

/// Whether the state is that after an entry was deleted.
pub open spec fn without_entry(before: ProjectState, after: ProjectState, path: Seq<char>, files: Vec<String>) -> bool {
    let listed = ProjectState {
        files,
        file_selected: crate::downloads::clamped(before.file_selected, files@.len()),
        ..before
    };
    if opt_key(before.editor_path) == Some(path_key(path)) {
        &&& after == ProjectState {
            editor_path: None,
            editor_text: after.editor_text,
            editor_dirty: false,
            editor_cursor: 0,
            editor_memory: after.editor_memory,
            pane: ProjectPane::FileTree,
            ..listed
        }
        &&& after.editor_text@.len() == 0
        &&& after.editor_memory@ == no_memory()
    } else {
        after == listed
    }
}

/// Shows the file tree without a deleted entry. A deleted file leaves the editor.
pub fn entry_deleted(app: &mut App, path: &str, files: Vec<String>)
    ensures
        *final(app) == (App {
            toast: final(app).toast,
            project: final(app).project,
            ..*old(app)
        }),
        opt_text(final(app).toast) == Some("Deleted"@),
        without_entry(old(app).project, final(app).project, path@, files),
{
    let p = &mut app.project;
    p.file_selected = crate::downloads::clamp_selected(p.file_selected, files.len());
    p.files = files;
    let open: bool = match &p.editor_path {
        Some(editor) => same_path(editor.as_str(), path),
        None => false,
    };
    if open {
        p.editor_path = None;
        p.editor_text = String::new();
        p.editor_dirty = false;
        p.editor_cursor = 0;
        p.editor_memory = fresh_memory();
        p.pane = ProjectPane::FileTree;
    }
    app.toast = Some("Deleted".to_owned());
}

/// Whether a project is the open one.
pub open spec fn is_active(p: ProjectState, project: Project) -> bool {
    p.active matches Some(active) && path_key(active.path@) == path_key(project.path@)
}

/// Whether a project is the open one.
pub fn is_active_project(p: &ProjectState, project: &Project) -> (r: bool)
    ensures
        r == is_active(*p, *project),
{
    match &p.active {
        Some(active) => same_path(active.path.as_str(), project.path.as_str()),
        None => false,
    }
}

/// The file that was open before its project moved, at its new place.
pub fn reopened_path(editor: &Option<String>, old_root: &str, new_root: &str) -> (r: Option<String>)
    ensures
        opt_text(r) == (match *editor {
            Some(path) => if inside(path@, old_root@) {
                Some(joined_path(new_root@, below(path@, old_root@)))
            } else {
                None
            },
            None => None,
        }),
{
    match editor {
        Some(path) => match strip_folder(path.as_str(), old_root) {
            Some(rest) => Some(join_path(new_root, rest.as_str())),
            None => None,
        },
        None => None,
    }
}

/// Goes on editing a file after its project was renamed.
pub fn file_reopened(p: &mut ProjectState, path: String, text: String)
    ensures
        *final(p) == (ProjectState {
            editor_path: Some(path),
            editor_text: text,
            editor_memory: final(p).editor_memory,
            pane: ProjectPane::Editor,
            ..*old(p)
        }),
        final(p).editor_memory@ == no_memory(),
{
    p.editor_path = Some(path);
    p.editor_text = text;
    p.editor_memory = fresh_memory();
    p.pane = ProjectPane::Editor;
}

/// Whether nothing is left of a project that was open.
pub open spec fn project_closed(before: App, after: App) -> bool {
    let q = after.project;
    &&& after == App {
        project: ProjectState {
            active: None,
            files: q.files,
            tree_dir: None,
            file_selected: 0,
            editor_path: None,
            editor_text: q.editor_text,
            editor_dirty: false,
            editor_cursor: 0,
            editor_insert_mode: false,
            editor_memory: q.editor_memory,
            editor_scroll: 0,
            completions: q.completions,
            build_status: q.build_status,
            build_errors: q.build_errors,
            build_scroll: 0,
            ..before.project
        },
        pdf: PdfState { path: None, page: 1, total_pages: 1, scroll_y: 0, ..before.pdf },
        ..before
    }
    &&& q.files@.len() == 0
    &&& q.editor_text@.len() == 0
    &&& q.editor_memory@ == no_memory()
    &&& q.completions@.len() == 0
    &&& q.build_status@ == "Idle"@
    &&& q.build_errors@.len() == 0
}

fn close_project(app: &mut App)
    ensures
        project_closed(*old(app), *final(app)),
{
    let p = &mut app.project;
    p.active = None;
    p.files = Vec::new();
    p.tree_dir = None;
    p.file_selected = 0;
    p.editor_path = None;
    p.editor_text = String::new();
    p.editor_dirty = false;
    p.editor_cursor = 0;
    p.editor_insert_mode = false;
    p.editor_memory = fresh_memory();
    p.editor_scroll = 0;
    p.completions = Vec::new();
    p.build_status = "Idle".to_owned();
    p.build_errors = Vec::new();
    p.build_scroll = 0;
    app.pdf.path = None;
    app.pdf.page = 1;
    app.pdf.total_pages = 1;
    app.pdf.scroll_y = 0;
}

/// The project is closed where it is `active`; otherwise nothing changes.
pub open spec fn closed_if(before: App, after: App, active: bool) -> bool {
    if active {
        project_closed(before, after)
    } else {
        after == before
    }
}

/// Shows the projects without a deleted one. Where it was open, it is closed.
pub fn project_deleted(app: &mut App, name: &str, was_active: bool, items: Vec<Project>)
    ensures
        exists|mid: App|
            {
                &&& #[trigger] closed_if(*old(app), mid, was_active)
                &&& *final(app) == (App {
                    toast: final(app).toast,
                    project: ProjectState {
                        pane: ProjectPane::ProjectList,
                        items,
                        selected: crate::downloads::clamped(mid.project.selected, items@.len()),
                        ..mid.project
                    },
                    ..mid
                })
            },
        opt_text(final(app).toast) == Some("Deleted project "@ + name@),
{
    if was_active {
        close_project(app);
    }
    let ghost mid = *app;
    app.project.pane = ProjectPane::ProjectList;
    projects_listed(&mut app.project, items);
    app.toast = Some(concat("Deleted project ", name));
    assert(closed_if(*old(app), mid, was_active));
}

/// What the compiler of a project reports.
#[derive(Debug)]
pub enum ProjectBuildEvent {
    PdfChanged,
    Succeeded,
    Failed(String),
}

/// What a line of the compiler's output means.
pub open spec fn build_line(line: Seq<char>) -> Option<bool> {
    let s = ascii_lowered(line);
    if occurs(s, "all targets"@) && occurs(s, "up-to-date"@) {
        Some(true)
    } else if occurs(s, "errors, so i did not complete"@) {
        Some(false)
    } else {
        None
    }
}

/// What a line of the compiler's output reports: success, a failure with the line
/// as its reason, or nothing.
pub fn read_latexmk_line(line: String) -> (r: Option<ProjectBuildEvent>)
    ensures
        r == (match build_line(line@) {
            Some(true) => Some(ProjectBuildEvent::Succeeded),
            Some(false) => Some(ProjectBuildEvent::Failed(line)),
            None => None,
        }),
{
    let s = ascii_lower_text(line.as_str());
    if contains_text(s.as_str(), "all targets") && contains_text(s.as_str(), "up-to-date") {
        Some(ProjectBuildEvent::Succeeded)
    } else if contains_text(s.as_str(), "errors, so i did not complete") {
        Some(ProjectBuildEvent::Failed(line))
    } else {
        None
    }
}

/// What is known of a build that is under way.
#[derive(Clone, Copy, Debug, PartialEq, Eq, Structural)]
pub struct BuildWatch {
    pub pdf_changed: bool,
    pub build_succeeded: bool,
}

/// What is known of a build after the first `n` events.
pub open spec fn watched(watch: BuildWatch, events: Seq<ProjectBuildEvent>, n: int) -> BuildWatch
    decreases n,
{
    if n <= 0 {
        watch
    } else {
        let w = watched(watch, events, n - 1);
        match events[n - 1] {
            ProjectBuildEvent::PdfChanged => BuildWatch { pdf_changed: true, ..w },
            ProjectBuildEvent::Succeeded => BuildWatch { build_succeeded: true, ..w },
            ProjectBuildEvent::Failed(_) => BuildWatch {
                pdf_changed: false,
                build_succeeded: false,
            },
        }
    }
}

/// The last failure among the first `n` events.
pub open spec fn last_failure(events: Seq<ProjectBuildEvent>, n: int) -> Option<String>
    decreases n,
{
    if n <= 0 {
        None
    } else {
        match events[n - 1] {
            ProjectBuildEvent::Failed(error) => Some(error),
            _ => last_failure(events, n - 1),
        }
    }
}

/// Takes in what the compiler has reported. Tells whether a failure is shown, and
/// whether a new document is ready: its file has changed and the build has
/// succeeded, in either order, since the last failure.
pub fn drain_events(watch: &mut BuildWatch, p: &mut ProjectState, events: &Vec<ProjectBuildEvent>) -> (r:
    (bool, bool))
    ensures
        ({
            let n = events@.len() as int;
            let w = watched(*old(watch), events@, n);
            let failure = last_failure(events@, n);
            &&& r.0 == failure is Some
            &&& r.1 == (w.pdf_changed && w.build_succeeded)
            &&& *final(watch) == (if r.1 {
                BuildWatch { pdf_changed: false, build_succeeded: false }
            } else {
                w
            })
            &&& match failure {
                Some(error) => *final(p) == (ProjectState {
                    build_status: final(p).build_status,
                    build_errors: final(p).build_errors,
                    ..*old(p)
                }) && final(p).build_status@ == "Build failed (editing continues)"@ && texts(
                    final(p).build_errors@,
                ) == seq![error@],
                None => *final(p) == *old(p),
            }
        }),
{
    let mut failed: bool = false;
    let mut i: usize = 0;
    while i < events.len()
        invariant
            i <= events@.len(),
            *watch == watched(*old(watch), events@, i as int),
            failed == last_failure(events@, i as int) is Some,
            match last_failure(events@, i as int) {
                Some(error) => *p == (ProjectState {
                    build_status: p.build_status,
                    build_errors: p.build_errors,
                    ..*old(p)
                }) && p.build_status@ == "Build failed (editing continues)"@ && texts(
                    p.build_errors@,
                ) == seq![error@],
                None => *p == *old(p),
            },
        decreases events@.len() - i,
    {
        match &events[i] {
            ProjectBuildEvent::PdfChanged => watch.pdf_changed = true,
            ProjectBuildEvent::Succeeded => watch.build_succeeded = true,
            ProjectBuildEvent::Failed(error) => {
                watch.build_succeeded = false;
                watch.pdf_changed = false;
                p.build_status = "Build failed (editing continues)".to_owned();
                let mut errors: Vec<String> = Vec::new();
                errors.push(error.clone());
                assert(texts(errors@) =~= seq![error@]);
                p.build_errors = errors;
                failed = true;
            },
        }
        i = i + 1;
    }
    let ready: bool = watch.pdf_changed && watch.build_succeeded;
    if ready {
        watch.pdf_changed = false;
        watch.build_succeeded = false;
    }
    (failed, ready)
}

/// A document is announced only once both its file and its build are done: a
/// failure in between takes back what came before it.
pub proof fn lemma_failure_takes_back(watch: BuildWatch, events: Seq<ProjectBuildEvent>, n: int)
    requires
        0 < n <= events.len(),
        events[n - 1] is Failed,
    ensures
        !watched(watch, events, n).pdf_changed,
        !watched(watch, events, n).build_succeeded,
{
}

/// How a new document has to be shown.
#[derive(Clone, Copy, Debug, PartialEq, Eq, Structural)]
pub enum DocumentChange {
    /// It is shown already: what is cached of it is out of date.
    Invalidate,
    /// It has not been shown before, and is to be shown here.
    Show,
    /// It has not been shown before, and is to be shown in another program.
    ShowOutside,
}

/// Shows that a build has succeeded. The page stays as far as the document still
/// has it.
pub fn document_built(app: &mut App, document: &str, pages: usize) -> (r: DocumentChange)
    ensures
        ({
            let shown = opt_key(old(app).pdf.path) == Some(path_key(document@));
            &&& *final(app) == (App {
                project: ProjectState {
                    build_status: final(app).project.build_status,
                    build_errors: final(app).project.build_errors,
                    ..old(app).project
                },
                pdf: PdfState {
                    path: final(app).pdf.path,
                    on_disk: true,
                    total_pages: pages,
                    page: crate::text::min(
                        old(app).pdf.page as int,
                        crate::text::max(pages as int, 1),
                    ) as usize,
                    ..old(app).pdf
                },
                ..*old(app)
            })
            &&& final(app).project.build_status@ == "Built successfully"@
            &&& final(app).project.build_errors@.len() == 0
            &&& opt_text(final(app).pdf.path) == (if shown {
                opt_text(old(app).pdf.path)
            } else {
                Some(document@)
            })
            &&& r == (if shown {
                DocumentChange::Invalidate
            } else if old(app).pdf.viewer@ == "internal"@ {
                DocumentChange::Show
            } else {
                DocumentChange::ShowOutside
            })
        }),
{
    app.project.build_status = "Built successfully".to_owned();
    app.project.build_errors = Vec::new();
    app.pdf.total_pages = pages;
    let last: usize = if pages == 0 {
        1
    } else {
        pages
    };
    if app.pdf.page > last {
        app.pdf.page = last;
    }
    app.pdf.on_disk = true;
    let shown: bool = match &app.pdf.path {
        Some(path) => same_path(path.as_str(), document),
        None => false,
    };
    if shown {
        return DocumentChange::Invalidate;
    }
    app.pdf.path = Some(document.to_owned());
    if same_text(app.pdf.viewer.as_str(), "internal") {
        DocumentChange::Show
    } else {
        DocumentChange::ShowOutside
    }
}

/// Tells the user why the compiler could not be started.
pub fn compiler_unavailable(p: &mut ProjectState, error: String)
    ensures
        *final(p) == (ProjectState {
            build_status: final(p).build_status,
            build_errors: final(p).build_errors,
            ..*old(p)
        }),
        final(p).build_status@ == "Compiler unavailable"@,
        texts(final(p).build_errors@) == seq![error@],
{
    p.build_status = "Compiler unavailable".to_owned();
    let mut errors: Vec<String> = Vec::new();
    errors.push(error);
    assert(texts(errors@) =~= seq![error@]);
    p.build_errors = errors;
}

/// Forgets suggestions when another project is indexed.
pub fn indexer_started(p: &mut ProjectState)
    ensures
        *final(p) == (ProjectState {
            completions: final(p).completions,
            completion_selected: 0,
            ..*old(p)
        }),
        final(p).completions@.len() == 0,
{
    p.completions = Vec::new();
    p.completion_selected = 0;
}

// ---------------------------------------------------------------------------
// What holds of all projects
// ---------------------------------------------------------------------------

/// A file that is open stays open when it or a folder above it gets another name: it is
/// found at the same place below the new name. Any other file stays where it is.
pub proof fn lemma_open_file_moves_along(
    path: Seq<char>,
    renamed: Seq<char>,
    folder: Seq<char>,
    name: Seq<char>,
    other: Seq<char>,
)
    requires
        plain_folder(path),
        plain_folder(renamed),
        entry_name(folder),
        entry_name(name),
        !inside(other, path),
    ensures
        moved_path(path, path, renamed) == renamed,
        moved_path(path + seq!['/'] + name, path, renamed) == renamed + seq!['/'] + name,
        moved_path(path + seq!['/'] + folder + seq!['/'] + name, path, renamed) == renamed
            + seq!['/'] + folder + seq!['/'] + name,
        moved_path(other, path, renamed) == other,
{
    reveal_strlit("/");
    let dir = path + seq!['/'] + folder;
    crate::paths::lemma_entry_of_folder(path, name, name);
    crate::paths::lemma_entry_of_folder(path, folder, name);
    crate::paths::lemma_entry_of_folder(renamed, name, name);
    crate::paths::lemma_entry_of_folder(renamed, folder, name);
    assert(plain_folder(dir)) by {
        assert(dir.last() == folder.last());
        if folder.len() > 1 {
            assert(dir[dir.len() - 2] == folder[folder.len() - 2]);
        }
    }
    crate::paths::lemma_entry_of_folder(dir, name, name);
    let c = components(path);
    let n = c.len() as int;
    assert(c.take(n) =~= c);
    assert(c.skip(n) =~= Seq::empty());
    assert(c.push(name).take(n) =~= c);
    assert(c.push(name).skip(n) =~= seq![name]);
    assert(joined(seq![name], "/"@) == name);
    let two = seq![folder, name];
    assert(c.push(folder).push(name).take(n) =~= c);
    assert(c.push(folder).push(name).skip(n) =~= two);
    assert(two.drop_last() =~= seq![folder]);
    assert(joined(seq![folder], "/"@) == folder);
    assert(joined(two, "/"@) == folder + "/"@ + name);
    assert(folder[0] != '/' && name[0] != '/');
    let tail = folder + "/"@ + name;
    assert(tail[0] == folder[0]);
    assert(joined_path(renamed, tail) =~= renamed + seq!['/'] + folder + seq!['/'] + name);
}

/// The main source of a project is the first of its files that is named `main.tex`.
pub proof fn lemma_main_source_is_first(files: Seq<String>, i: int, k: int)
    requires
        0 <= i <= k <= files.len(),
        forall|j: int| i <= j < k ==> file_name((#[trigger] files[j])@) != Some("main.tex"@),
        k < files.len() ==> file_name(files[k]@) == Some("main.tex"@),
    ensures
        main_source(files, i) == (if k < files.len() {
            Some(files[k])
        } else {
            None
        }),
    decreases k - i,
{
    if i < k {
        lemma_main_source_is_first(files, i + 1, k);
    }
}

/// In the file tree folders stand before files, and otherwise entries by their names,
/// the first character that differs deciding.
pub proof fn lemma_folders_stand_first(
    a: FolderEntry,
    b: FolderEntry,
    common: Seq<char>,
    x: Seq<char>,
    y: Seq<char>,
)
    requires
        a.name@ == common + x,
        b.name@ == common + y,
        x.len() > 0 && y.len() > 0 && x[0] < y[0],
    ensures
        a.is_directory && !b.is_directory ==> entry_le(a, b) && !entry_le(b, a),
        !a.is_directory && b.is_directory ==> entry_le(b, a) && !entry_le(a, b),
        a.is_directory == b.is_directory ==> entry_le(a, b) && !entry_le(b, a),
{
    crate::strings::lemma_first_character_decides(common, x, y);
    crate::strings::lemma_first_character_decides(common, y, x);
}

/// A new document is ready once its file has changed and the build has succeeded, both
/// behind the last failure; what was known before counts where nothing has failed.
pub proof fn lemma_document_is_ready(watch: BuildWatch, events: Seq<ProjectBuildEvent>, n: int)
    requires
        0 <= n <= events.len(),
    ensures
        ({
            let w = watched(watch, events, n);
            let calm = forall|j: int| 0 <= j < n ==> !((#[trigger] events[j]) is Failed);
            &&& w.pdf_changed <==> (watch.pdf_changed && calm) || exists|k: int|
                0 <= k < n && (#[trigger] events[k]) is PdfChanged && forall|j: int|
                    k < j < n ==> !((#[trigger] events[j]) is Failed)
            &&& w.build_succeeded <==> (watch.build_succeeded && calm) || exists|k: int|
                0 <= k < n && (#[trigger] events[k]) is Succeeded && forall|j: int|
                    k < j < n ==> !((#[trigger] events[j]) is Failed)
        }),
    decreases n,
{
    if n > 0 {
        lemma_document_is_ready(watch, events, n - 1);
        let e = events[n - 1];
        let w = watched(watch, events, n);
        let v = watched(watch, events, n - 1);
        if e is Failed {
            assert forall|k: int| 0 <= k < n && (#[trigger] events[k]) is PdfChanged implies !(
            forall|j: int| k < j < n ==> !((#[trigger] events[j]) is Failed)) by {
                assert(k < n - 1);
                assert(events[n - 1] is Failed);
            }
            assert forall|k: int| 0 <= k < n && (#[trigger] events[k]) is Succeeded implies !(
            forall|j: int| k < j < n ==> !((#[trigger] events[j]) is Failed)) by {
                assert(k < n - 1);
                assert(events[n - 1] is Failed);
            }
        } else {
            if e is PdfChanged {
                assert(0 <= n - 1 < n && events[n - 1] is PdfChanged && forall|j: int|
                    n - 1 < j < n ==> !((#[trigger] events[j]) is Failed));
            }
            if e is Succeeded {
                assert(0 <= n - 1 < n && events[n - 1] is Succeeded && forall|j: int|
                    n - 1 < j < n ==> !((#[trigger] events[j]) is Failed));
            }
            if exists|k: int|
                0 <= k < n - 1 && (#[trigger] events[k]) is PdfChanged && forall|j: int|
                    k < j < n - 1 ==> !((#[trigger] events[j]) is Failed) {
                let k = choose|k: int|
                    0 <= k < n - 1 && (#[trigger] events[k]) is PdfChanged && forall|j: int|
                        k < j < n - 1 ==> !((#[trigger] events[j]) is Failed);
                assert(0 <= k < n && events[k] is PdfChanged && forall|j: int|
                    k < j < n ==> !((#[trigger] events[j]) is Failed));
            }
            if exists|k: int|
                0 <= k < n - 1 && (#[trigger] events[k]) is Succeeded && forall|j: int|
                    k < j < n - 1 ==> !((#[trigger] events[j]) is Failed) {
                let k = choose|k: int|
                    0 <= k < n - 1 && (#[trigger] events[k]) is Succeeded && forall|j: int|
                        k < j < n - 1 ==> !((#[trigger] events[j]) is Failed);
                assert(0 <= k < n && events[k] is Succeeded && forall|j: int|
                    k < j < n ==> !((#[trigger] events[j]) is Failed));
            }
        }
    }
}

/// The failure that is shown is the last one.
pub proof fn lemma_last_failure_is_shown(events: Seq<ProjectBuildEvent>, n: int, k: int)
    requires
        0 <= k < n <= events.len(),
        events[k] is Failed,
        forall|j: int| k < j < n ==> !((#[trigger] events[j]) is Failed),
    ensures
        last_failure(events, n) == Some(events[k]->Failed_0),
    decreases n,
{
    if k < n - 1 {
        assert(!(events[n - 1] is Failed));
        lemma_last_failure_is_shown(events, n - 1, k);
    }
}

/// A line of the compiler tells of a success where it says, in whatever case, that all
/// targets are up to date, and of a failure where it says that it did not complete.
pub proof fn lemma_lines_tell_of_the_build(line: Seq<char>, i: int, j: int)
    ensures
        occurs_at(ascii_lowered(line), "all targets"@, i) && occurs_at(
            ascii_lowered(line),
            "up-to-date"@,
            j,
        ) ==> build_line(line) == Some(true),
        (forall|k: int| !occurs_at(ascii_lowered(line), "all targets"@, k)) && occurs_at(
            ascii_lowered(line),
            "errors, so i did not complete"@,
            i,
        ) ==> build_line(line) == Some(false),
        (forall|k: int| !occurs_at(ascii_lowered(line), "all targets"@, k)) && (forall|k: int|
            !occurs_at(ascii_lowered(line), "errors, so i did not complete"@, k)) ==> build_line(
            line,
        ) is None,
{
}

/// The tree shows folders, texts and images, and nothing called `.git`.
pub proof fn lemma_tree_shows_sources(e: FolderEntry)
    ensures
        e.name@ == seq!['.', 'g', 'i', 't'] ==> !entry_shown(e),
        e.name@ != seq!['.', 'g', 'i', 't'] && e.is_directory ==> entry_shown(e),
        e.name@ != seq!['.', 'g', 'i', 't'] && !e.is_directory ==> (entry_shown(e) <==> tree_file(
            e.path@,
        )),
{
    reveal_strlit(".git");
    assert(".git"@ =~= seq!['.', 'g', 'i', 't']);
}

/// A file that was opened stands in the editor as it is, from its start and without
/// changes. Nothing of the one before can be had back in it.
pub proof fn lemma_opened_file_is_unchanged(
    before: ProjectState,
    after: ProjectState,
    path: String,
    text: String,
)
    requires
        file_shown(before, after, path, text),
    ensures
        after.editor_text@ == text@,
        after.editor_path is Some && after.editor_path->0@ == path@,
        !after.editor_dirty && !after.editor_insert_mode,
        after.editor_cursor == 0 && after.editor_scroll == 0,
        after.editor_memory@.undo.len() == 0 && after.editor_memory@.redo.len() == 0,
        after.pane == ProjectPane::Editor,
        after.active == before.active && after.files == before.files,
{
}

/// A file that was deleted leaves the editor, and every other file stays in it with its
/// changes.
pub proof fn lemma_deleted_file_leaves_the_editor(
    before: ProjectState,
    after: ProjectState,
    path: Seq<char>,
    files: Vec<String>,
)
    requires
        without_entry(before, after, path, files),
    ensures
        after.files == files,
        before.editor_path is Some && path_key(before.editor_path->0@) == path_key(path)
            ==> after.editor_path is None && after.editor_text@.len() == 0 && !after.editor_dirty
            && after.pane == ProjectPane::FileTree,
        before.editor_path is None || path_key(before.editor_path->0@) != path_key(path)
            ==> after.editor_path == before.editor_path && after.editor_text == before.editor_text
            && after.editor_dirty == before.editor_dirty && after.editor_cursor
            == before.editor_cursor && after.pane == before.pane,
        after.active == before.active,
{
}

/// A project that is opened shows its own folder and nothing of the one before.
pub proof fn lemma_opened_project_is_shown(
    before: ProjectState,
    after: ProjectState,
    project: Project,
    files: Vec<String>,
)
    requires
        project_opened(before, after, project, files),
    ensures
        after.active == Some(project),
        after.tree_dir is Some && after.tree_dir->0@ == project.path@,
        after.files == files && after.file_selected == 0,
        after.editor_path is None && after.editor_text@.len() == 0 && !after.editor_dirty,
        after.pane == ProjectPane::FileTree,
        after.build_errors@.len() == 0,
{
}

/// A project that is closed leaves nothing behind, neither in the editor nor in the
/// preview. One that is not open changes nothing when it goes.
pub proof fn lemma_closed_project_leaves_nothing(before: App, after: App, active: bool)
    requires
        closed_if(before, after, active),
    ensures
        active ==> after.project.active is None && after.project.editor_path is None
            && after.project.editor_text@.len() == 0 && after.project.files@.len() == 0
            && after.project.tree_dir is None && after.pdf.path is None
            && !after.project.editor_dirty && !after.project.editor_insert_mode,
        active ==> after.project.items == before.project.items && after.library == before.library
            && after.page == before.page,
        !active ==> after == before,
{
}

} // verus!
