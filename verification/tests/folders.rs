//! Paths, groups, projects and what is built from them.

use papr::model::{App, CollectionSummary, MetadataPrompt, Page, Project, ProjectPane};
use papr::organization::{
    add_paper_to_collection_with_disk, apply_collection_prompt, check_destination, count_read,
    dispatch_plugin_events, membership_changed, next_plugin_event, note_plugin_action,
    open_collection, plan_move, sync_pdf_collection_membership, validate_collection_name,
    Organization, PluginAction, PluginInfo, PluginOutcome, PromptPlan,
};
use papr::paths::{
    component_count, extension_is, extension_of, file_name_of, is_inside, is_project_text_file,
    is_project_tree_file, join_path, last_part_of, parent_of, plan_project_entry,
    replace_extension, replace_file_name, same_path, shown_name, strip_folder,
};
use papr::projects::{clipboard_read, focus_pane, project_saved, tree_entry_opened};
use papr::effect::{AfterSave, KeyEffect};
use papr::action::UiAction;
use papr::actions::{apply_ui_action, Work};
use papr::downloads::PendingDownloads;
use papr::runtime::{library_roots, viewer_configured};
use papr::workbench::{
    document_built, drain_events, entry_created, entry_deleted, entry_renamed, is_active_project,
    open_project_file, open_project_workspace, project_tree_entries, projects_listed,
    read_latexmk_line, reopened_path, BuildWatch, DocumentChange, FolderEntry, ProjectBuildEvent,
};

#[test]
fn paths_are_taken_apart() {
    assert_eq!(file_name_of("/a/b.tar.gz").as_deref(), Some("b.tar.gz"));
    assert_eq!(extension_of("/a/b.tar.gz").as_deref(), Some("gz"));
    assert_eq!(extension_of("/a/.hidden"), None);
    assert!(extension_is("/a/b.PDF", "PDF"));
    assert_eq!(parent_of("/a/b").as_deref(), Some("/a"));
    assert_eq!(join_path("/a", "b"), "/a/b");
    assert_eq!(join_path("/a", "/b"), "/b");
    assert_eq!(replace_file_name("/a/b.tex", "c.tex"), "/a/c.tex");
    assert_eq!(replace_extension("/a/b.pdf", "pdf.part"), "/a/b.pdf.part");
    assert_eq!(component_count("/a//./b/"), 2);
    assert!(is_inside("/a/b/c", "/a/b"));
    assert!(!is_inside("/a/bc", "/a/b"));
    assert_eq!(strip_folder("/a/b/c", "/a").as_deref(), Some("b/c"));
    assert_eq!(strip_folder("/b", "/a"), None);
}

#[test]
fn trailing_slashes_and_dots_do_not_count() {
    for path in ["/a/main.tex", "/a/main.tex/", "/a/main.tex//", "/a/main.tex/.", "/a//main.tex/./"] {
        assert_eq!(file_name_of(path).as_deref(), Some("main.tex"), "{path}");
        assert_eq!(extension_of(path).as_deref(), Some("tex"), "{path}");
        assert_eq!(parent_of(path).as_deref(), Some("/a"), "{path}");
        assert_eq!(shown_name(path), "main.tex");
        assert!(is_project_text_file(path));
    }
    assert!(is_project_text_file("main.tex/"));
    assert_eq!(replace_file_name("/a/b.tex/", "c.tex"), "/a/c.tex");
    assert_eq!(replace_file_name("..", "c.tex"), "../c.tex");
    assert_eq!(replace_extension("/a/b.pdf/", "pdf.part"), "/a/b.pdf.part");
    assert_eq!(replace_extension("/a/..", "pdf"), "/a/..");
    for path in ["", "/", "//", ".", "..", "/a/..", "../.", "a/../"] {
        assert_eq!(file_name_of(path), None, "{path}");
        assert_eq!(extension_of(path), None, "{path}");
        assert_eq!(shown_name(path), "", "{path}");
    }
    assert_eq!(parent_of("/a/./b/").as_deref(), Some("/a"));
    assert_eq!(parent_of("a/..").as_deref(), Some("a"));
    for path in ["a", "a/", "./", ".", ".."] {
        assert_eq!(parent_of(path).as_deref(), Some(""), "{path}");
    }
    for path in ["", "/", "//", "/."] {
        assert_eq!(parent_of(path), None, "{path}");
    }
    assert_eq!(last_part_of("math/9901001"), "9901001");
    assert_eq!(last_part_of("math/"), "");
    assert_eq!(last_part_of("2301.00001"), "2301.00001");
}

#[test]
fn the_parts_of_a_path_are_those_of_the_standard_library() {
    for path in ["", "/", ".", "..", "a", "/a", "./a", "../a", "a/b", "a/./b", "a/../b", "/a//b/"] {
        let known = std::path::Path::new(path);
        let name = known.file_name().map(|part| part.to_string_lossy().into_owned());
        assert_eq!(file_name_of(path), name, "{path}");
        let extension = known.extension().map(|part| part.to_string_lossy().into_owned());
        assert_eq!(extension_of(path), extension, "{path}");
        let parent = known.parent().map(|part| part.to_string_lossy().into_owned());
        assert_eq!(parent_of(path), parent, "{path}");
    }
}

#[test]
fn new_entries_stay_inside_the_project() {
    let nested = plan_project_entry("chapters/introduction.tex").unwrap();
    assert_eq!((nested.relative.as_str(), nested.is_directory), ("chapters/introduction.tex", false));
    let folder = plan_project_entry(" assets/ ").unwrap();
    assert_eq!((folder.relative.as_str(), folder.is_directory), ("assets", true));
    for wrong in ["../outside.tex", "/tmp/outside.tex", "", "/", "a/../b"] {
        assert_eq!(
            plan_project_entry(wrong).unwrap_err(),
            "enter a relative file path inside the project"
        );
    }
}

#[test]
fn the_file_tree_shows_sources_and_folders() {
    assert!(is_project_text_file("/p/main.tex"));
    assert!(is_project_tree_file("/p/figure.webp"));
    assert!(!is_project_text_file("/p/figure.webp"));
    let entry = |name: &str, is_directory| FolderEntry {
        path: format!("/p/{name}"),
        name: name.to_owned(),
        is_directory,
    };
    let entries = vec![entry("main.tex", false), entry(".git", true), entry("img", true), entry("x.o", false)];
    assert_eq!(project_tree_entries(&entries), ["/p/img", "/p/main.tex"]);
}

fn group(id: i64, name: &str, folder: Option<&str>) -> CollectionSummary {
    CollectionSummary { id, name: name.into(), paper_count: 0, folder_path: folder.map(str::to_owned) }
}

fn prompt(value: &str) -> MetadataPrompt {
    MetadataPrompt {
        paper_id: None,
        rename_collection_id: None,
        rename_paper_id: None,
        value: value.into(),
        cursor: 0,
        selected: 0,
        current_collection: None,
    }
}

#[test]
fn names_of_groups_are_those_of_folders() {
    assert!(validate_collection_name("Light").is_ok());
    for wrong in ["", ".", "..", "a/b", "a\\b"] {
        assert_eq!(
            validate_collection_name(wrong).unwrap_err(),
            "group name must be one safe directory name"
        );
    }
}

#[test]
fn prompts_are_planned() {
    let mut app = App::default();
    app.collections.items = vec![group(1, "Light", Some("/lib/Light"))];
    assert!(matches!(
        apply_collection_prompt(&app, &prompt(" Optics "), "/lib"),
        Ok(PromptPlan::CreateGroup { name, folder }) if name == "Optics" && folder == "/lib/Optics"
    ));
    let mut rename = prompt("Lamps");
    rename.rename_collection_id = Some(1);
    let plan = apply_collection_prompt(&app, &rename, "/lib").unwrap();
    assert!(matches!(&plan, PromptPlan::RenameGroup { old_folder, new_folder, .. }
        if old_folder == "/lib/Light" && new_folder == "/lib/Lamps"));
    assert!(check_destination(&plan, true).is_ok());
    let file = PromptPlan::RenameFile { paper_id: 1, source: "/a.pdf".into(), destination: "/b.pdf".into() };
    assert!(check_destination(&file, false).is_ok());
    assert_eq!(check_destination(&file, true).unwrap_err(), "a file with this name already exists");
    assert!(apply_collection_prompt(&app, &prompt("a/b"), "/lib").is_err());
    assert_eq!(plan_move("/dl/x.pdf", "/lib/Light").unwrap(), "/lib/Light/x.pdf");
    let known = add_paper_to_collection_with_disk(&app.collections.items, " light ", "/lib");
    assert!(matches!(known, Ok(Some(target)) if target.id == Some(1) && target.folder == "/lib/Light"));
    assert!(matches!(add_paper_to_collection_with_disk(&app.collections.items, " ", "/lib"), Ok(None)));
    assert!(!membership_changed(&Some("LIGHT".into()), "Light", false));
    assert!(membership_changed(&None, "Light", false));
}

#[test]
fn papers_belong_to_the_deepest_folder() {
    let roots = vec!["/lib".to_owned(), "/lib/deep".to_owned()];
    let found = sync_pdf_collection_membership("/lib/deep/a/x.pdf", &roots).unwrap();
    assert_eq!((found.root.as_str(), found.folder.as_deref()), ("/lib/deep", Some("a")));
    let top = sync_pdf_collection_membership("/lib/x.pdf", &roots).unwrap();
    assert_eq!((top.root.as_str(), top.folder), ("/lib", None));
    assert!(sync_pdf_collection_membership("/other/x.pdf", &roots).is_none());
}

fn nothing_stored() -> Organization {
    Organization {
        groups: vec![],
        found: vec![],
        group_papers: vec![],
        bookmarks: vec![],
        authors: vec![],
        author_papers: vec![],
        notes: vec![],
        queue: vec![],
    }
}

#[test]
fn every_plugin_in_use_gets_every_event() {
    let plugin = |id: &str, enabled| PluginInfo { id: id.into(), enabled };
    let plugins = vec![plugin("a", false), plugin("b", true), plugin("c", true)];
    let mut seen = Vec::new();
    let mut last = None;
    while let Some(next) = next_plugin_event(&plugins, 2, last) {
        seen.push(next);
        last = Some(next);
    }
    assert_eq!(seen, [(1, 0), (1, 1), (2, 0), (2, 1)]);
    assert_eq!(next_plugin_event(&plugins, 0, None), None);
    let mut outcome = PluginOutcome { organization_dirty: false, last_notify: None };
    let add = PluginAction::AddToCollection { name: "Machine Learning".into() };
    note_plugin_action(&mut outcome, add, true);
    let tell = PluginAction::Notify { message: "Tagged paper!".into() };
    note_plugin_action(&mut outcome, tell, false);
    assert!(outcome.organization_dirty);
    let mut app = App::default();
    dispatch_plugin_events(&mut app, outcome, nothing_stored(), vec![]);
    assert_eq!(app.toast.as_deref(), Some("Tagged paper!"));
}

#[test]
fn a_group_that_is_opened_again_keeps_its_place() {
    let mut app = App::default();
    app.collections.items = vec![group(1, "Light", None), group(2, "Sound", None)];
    open_collection(&mut app.collections, 1, vec![]);
    assert_eq!(app.collections.active.as_ref().map(|open| open.id), Some(1));
    app.collections.paper_selected = 4;
    open_collection(&mut app.collections, 1, vec![]);
    assert_eq!(app.collections.paper_selected, 0);
    open_collection(&mut app.collections, 9, vec![]);
    assert!(app.collections.active.is_none());
    assert_eq!(count_read(&vec![]), 0);
}

fn project(name: &str) -> Project {
    Project { name: name.into(), path: format!("/p/{name}"), opened_at: 0 }
}

#[test]
fn projects_open_with_their_main_source() {
    let mut app = App::default();
    let files = vec!["/p/one/a.tex".to_owned(), "/p/one/main.tex".to_owned()];
    let opening = open_project_workspace(&mut app, project("one"), files, Some(4));
    assert_eq!(opening.main_source.as_deref(), Some("/p/one/main.tex"));
    assert_eq!(opening.document.as_deref(), Some("/p/one/main.pdf"));
    assert!(!opening.external);
    assert_eq!(app.pdf.total_pages, 4);
    assert_eq!(app.project.pane, ProjectPane::FileTree);
    assert!(is_active_project(&app.project, &project("one")));
    open_project_file(&mut app, "/p/one/a.tex".into(), Ok("text".into()));
    assert_eq!((app.project.editor_text.as_str(), app.project.pane), ("text", ProjectPane::Editor));
    app.project.editor_memory.pending_g = true;
    app.project.editor_memory.anchor = Some(2);
    open_project_file(&mut app, "/p/one/a.tex".into(), Ok("text".into()));
    assert!(!app.project.editor_memory.pending_g);
    assert_eq!(app.project.editor_memory.anchor, None);
    open_project_file(&mut app, "/p/one/b.tex".into(), Err("gone".into()));
    assert_eq!(app.toast.as_deref(), Some("Could not open file: gone"));
    projects_listed(&mut app.project, vec![project("one")]);
    assert_eq!(app.project.items.len(), 1);
}

#[test]
fn entries_of_projects_come_and_go() {
    let mut app = App::default();
    open_project_workspace(&mut app, project("one"), vec![], None);
    let path = "/p/one/a.tex".to_owned();
    entry_created(&mut app, "a.tex", path.clone(), vec![path.clone()], Some(Ok(String::new())));
    assert_eq!(app.project.editor_path.as_deref(), Some("/p/one/a.tex"));
    entry_renamed(&mut app, "/p/one/a.tex", "/p/one/b.tex", vec!["/p/one/b.tex".into()]);
    assert_eq!(app.project.editor_path.as_deref(), Some("/p/one/b.tex"));
    entry_deleted(&mut app, "/p/one/b.tex", vec![]);
    assert_eq!(app.project.editor_path, None);
    assert_eq!(
        reopened_path(&Some("/p/one/x/y.tex".into()), "/p/one", "/p/two").as_deref(),
        Some("/p/two/x/y.tex")
    );
}

#[test]
fn paths_are_the_same_however_they_are_written() {
    for other in ["/p/one", "/p/one/", "/p//one", "/p/./one", "/p/one/.", "//p/one//"] {
        assert!(same_path("/p/one", other));
        assert!(same_path(other, "/p/one"));
    }
    for other in ["p/one", "/p", "/p/one/two", "/p/One", "/p/one/..", "./p/one", ""] {
        assert!(!same_path("/p/one", other));
    }
    let mut app = App::default();
    open_project_workspace(&mut app, project("one"), vec![], None);
    let same = Project { name: "one".into(), path: "/p/./one/".into(), opened_at: 0 };
    assert!(is_active_project(&app.project, &same));
    app.project.editor_path = Some("/p/one/a.tex".into());
    entry_deleted(&mut app, "/p/one//a.tex", vec![]);
    assert_eq!(app.project.editor_path, None);
    app.pdf.path = Some("/p/one/./main.pdf".into());
    let change = document_built(&mut app, "/p/one/main.pdf", 3);
    assert!(matches!(change, DocumentChange::Invalidate));
    assert_eq!(app.pdf.path.as_deref(), Some("/p/one/./main.pdf"));
}

#[test]
fn a_project_is_not_an_entry_of_itself() {
    let mut app = App::default();
    open_project_workspace(&mut app, project("one"), vec![], None);
    let mut pending = PendingDownloads::new();
    for path in ["/p/one", "/p/one/", "/p/one/.", "/p//one", "/p/two/a.tex", "/p"] {
        app.toast = None;
        let action = UiAction::DeleteProjectEntry(path.into());
        let work = apply_ui_action(&mut app, &mut pending, action, "/dl", false, 0);
        assert!(matches!(work, Work::Nothing));
        assert_eq!(app.toast.as_deref(), Some("Could not delete entry outside the project."));
    }
    let action = UiAction::DeleteProjectEntry("/p/one/a.tex".into());
    let work = apply_ui_action(&mut app, &mut pending, action, "/dl", false, 0);
    assert!(matches!(work, Work::DeleteEntry(path) if path == "/p/one/a.tex"));
}

#[test]
fn a_download_is_opened_by_its_file() {
    let mut app = App::default();
    let mut pending = PendingDownloads::new();
    let action = UiAction::OpenDownload("2301.00001".into());
    let work = apply_ui_action(&mut app, &mut pending, action, "/dl", false, 0);
    assert!(
        matches!(work, Work::OpenDownload { paper_id: None, path } if path == "/dl/2301.00001.pdf")
    );
    let action = UiAction::OpenPdf { paper_id: 3, path: "/p/a.pdf".into() };
    let work = apply_ui_action(&mut app, &mut pending, action, "/dl", false, 0);
    assert!(matches!(work, Work::OpenPdf { paper_id: 3, path } if path == "/p/a.pdf"));
}

#[test]
fn builds_are_read_off_their_output() {
    assert!(matches!(
        read_latexmk_line("Latexmk: All targets (main.pdf) are up-to-date".into()),
        Some(ProjectBuildEvent::Succeeded)
    ));
    let line = "Latexmk: Errors, so I did not complete making targets";
    assert!(matches!(read_latexmk_line(line.into()), Some(ProjectBuildEvent::Failed(text)) if text == line));
    assert!(read_latexmk_line("Running pdflatex".into()).is_none());
    let mut app = App::default();
    let mut watch = BuildWatch { pdf_changed: false, build_succeeded: false };
    let events = vec![ProjectBuildEvent::Failed("broken".into())];
    drain_events(&mut watch, &mut app.project, &events);
    assert!(!app.project.build_errors.is_empty());
    let (_, built) = drain_events(&mut watch, &mut app.project, &vec![ProjectBuildEvent::Succeeded]);
    assert!(!built);
    let (_, built) = drain_events(&mut watch, &mut app.project, &vec![ProjectBuildEvent::PdfChanged]);
    assert!(built);
    assert!(matches!(document_built(&mut app, "/p/one/main.pdf", 2), DocumentChange::Show));
    assert!(matches!(document_built(&mut app, "/p/one/main.pdf", 3), DocumentChange::Invalidate));
    assert_eq!(app.pdf.total_pages, 3);
    assert!(app.project.build_errors.is_empty());
}

#[test]
fn panes_that_have_nothing_to_show_are_not_selected() {
    let mut app = App::default();
    app.page = Page::Projects;
    focus_pane(&mut app, ProjectPane::Build);
    assert_eq!(app.toast.as_deref(), Some("Open a project before focusing this pane."));
    open_project_workspace(&mut app, project("one"), vec![], None);
    focus_pane(&mut app, ProjectPane::Preview);
    assert_eq!(
        app.toast.as_deref(),
        Some("PDF preview is unavailable until the first successful build.")
    );
    focus_pane(&mut app, ProjectPane::Build);
    assert_eq!(app.project.pane, ProjectPane::Build);
    app.project.editor_dirty = true;
    project_saved(&mut app, Err("full".into()), AfterSave::LeaveProject);
    assert!(app.project.editor_dirty && app.project.active.is_some());
    project_saved(&mut app, Ok(()), AfterSave::ShowFileTree);
    assert!(!app.project.editor_dirty);
    assert_eq!(app.project.pane, ProjectPane::FileTree);
    let inner = tree_entry_opened(&mut app, "/p/one/img".into(), Some(vec!["/p/one/img/a.png".into()]));
    assert!(inner.is_none());
    assert_eq!(app.project.tree_dir.as_deref(), Some("/p/one/img"));
    let file = tree_entry_opened(&mut app, "/p/one/a.tex".into(), None);
    assert!(matches!(file, Some(UiAction::OpenProjectFile(path)) if path == "/p/one/a.tex"));
    assert!(matches!(clipboard_read(&mut app, None), KeyEffect::Nothing));
}

#[test]
fn settings_reach_the_folders_and_the_viewer() {
    let roots = library_roots(&vec!["/lib".into()], "/lib/dl");
    assert_eq!(roots, ["/lib"]);
    assert_eq!(library_roots(&vec!["/lib".into()], "/dl"), ["/lib", "/dl"]);
    let mut app = App::default();
    app.project.pane = ProjectPane::Preview;
    viewer_configured(&mut app, "zathura {path}".into());
    assert_eq!(app.pdf.viewer, "zathura {path}");
    assert_eq!(app.project.pane, ProjectPane::FileTree);
}
