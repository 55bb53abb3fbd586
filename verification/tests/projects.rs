//! Keys in the projects.

use papr::action::UiAction;
use papr::effect::{AfterSave, KeyEffect};
use papr::input::handle_key;
use papr::keys::{KeyCode, KeyEvent, KeyModifiers};
use papr::model::{App, AppMode, CompletionItem, Page, Project, ProjectPane};
use papr::runtime::MouseEventKind;
use papr::project_editor::scroll_project_editor;
use papr::projects::{
    accept_project_completion, handle_project_bibtex_paste, insert_project_bibtex_text,
    is_project_bibtex_editor, tree_entry_opened,
    update_project_completions,
};

fn project_editor_app(text: &str, cursor: usize) -> App {
    let mut made = App::default();
    made.page = Page::Projects;
    made.content_focused = true;
    made.project.active = Some(Project {
        name: "keyboard-test".into(),
        path: "keyboard-test".into(),
        opened_at: 0,
    });
    made.project.pane = ProjectPane::Editor;
    made.project.editor_text = text.into();
    made.project.editor_cursor = cursor;
    made.project.editor_insert_mode = true;
    made.project.editor_wrap_width = 80;
    made.project.editor_viewport_height = 20;
    made
}

#[test]
fn citation_completion_replaces_only_the_current_key() {
    let mut app = project_editor_app("\\cite{newton1687, eins}", 22);
    update_project_completions(
        &mut app.project,
        vec![CompletionItem {
            label: "einstein1905".into(),
            insert_text: "einstein1905".into(),
        }],
    );
    assert!(accept_project_completion(&mut app.project));
    assert_eq!(app.project.editor_text, "\\cite{newton1687, einstein1905}");
}

#[test]
fn project_editor_insert_mode_handles_editing_keys_without_workspace_interception() {
    let mut app = project_editor_app("ab", 1);

    let _ = handle_key(&mut app, KeyEvent::new(KeyCode::Tab, KeyModifiers::none()));
    assert_eq!(app.project.editor_text, "a\tb");
    assert_eq!(app.project.editor_cursor, 2);
    assert!(app.project.editor_dirty);

    let _ = handle_key(
        &mut app,
        KeyEvent::new(KeyCode::Backspace, KeyModifiers::none()),
    );
    assert_eq!(app.project.editor_text, "ab");
    assert_eq!(app.project.editor_cursor, 1);

    let _ = handle_key(&mut app, KeyEvent::new(KeyCode::Enter, KeyModifiers::none()));
    let _ = handle_key(
        &mut app,
        KeyEvent::new(KeyCode::Char('q'), KeyModifiers::none()),
    );
    assert_eq!(app.project.editor_text, "a\nqb");
    assert_eq!(app.project.editor_cursor, 3);
    assert!(app.project.editor_insert_mode);
    assert!(!app.should_quit);
}

#[test]
fn bibtex_paste_preserves_the_clipboard_text_exactly() {
    let citation = "@article{doe2026,\n  title = {Exact {BibTeX} Formatting},\n  author = {Doe, Jane},\n}\n";
    let mut app = project_editor_app("before\nafter", "before\n".len());

    insert_project_bibtex_text(&mut app.project, citation);

    assert_eq!(app.project.editor_text, format!("before\n{citation}after"));
    assert_eq!(app.project.editor_cursor, "before\n".len() + citation.len());
    assert!(app.project.editor_dirty);
}

#[test]
fn texts_are_pasted_exactly_into_sources_and_bibliographies() {
    let paste = KeyEvent::new(
        KeyCode::Char('v'),
        KeyModifiers { control: true, shift: true, ..KeyModifiers::none() },
    );
    for path in ["keyboard-test/main.tex", "keyboard-test/refs.bib"] {
        let mut app = project_editor_app("ab", 1);
        app.project.editor_path = Some(path.into());
        assert!(is_project_bibtex_editor(&app));
        assert!(matches!(handle_key(&mut app, paste), KeyEffect::PasteClipboard));
        let effect = handle_project_bibtex_paste(&mut app, "\n  x\t");
        assert!(matches!(effect, KeyEffect::SaveProject(AfterSave::Stay)));
        assert_eq!(app.project.editor_text, "a\n  x\tb");
    }
    let mut app = project_editor_app("ab", 1);
    app.project.editor_path = Some("keyboard-test/notes.md".into());
    assert!(!is_project_bibtex_editor(&app));
    assert!(matches!(handle_project_bibtex_paste(&mut app, "x"), KeyEffect::Nothing));
    assert_eq!(app.project.editor_text, "ab");
}

fn normal(text: &str, cursor: usize) -> App {
    let mut app = project_editor_app(text, cursor);
    app.project.editor_insert_mode = false;
    app
}

fn press(app: &mut App, code: KeyCode) -> KeyEffect {
    handle_key(app, KeyEvent::new(code, KeyModifiers::none()))
}

fn shown(app: &App) -> (&str, usize) {
    (app.project.editor_text.as_str(), app.project.editor_cursor)
}

#[test]
fn changes_of_the_editor_are_taken_back_and_brought_back() {
    let mut app = normal("aéb", 1);
    let redo = KeyEvent::new(KeyCode::Char('r'), KeyModifiers::control());
    let _ = press(&mut app, KeyCode::Char('u'));
    assert_eq!(shown(&app), ("aéb", 1));
    assert!(!app.project.editor_dirty);
    let _ = press(&mut app, KeyCode::Char('x'));
    let _ = press(&mut app, KeyCode::Char('i'));
    let _ = press(&mut app, KeyCode::Char('z'));
    assert_eq!(shown(&app), ("azb", 2));
    app.project.editor_insert_mode = false;
    let _ = press(&mut app, KeyCode::Char('u'));
    assert_eq!(shown(&app), ("ab", 1));
    let _ = press(&mut app, KeyCode::Char('u'));
    assert_eq!(shown(&app), ("aéb", 1));
    let _ = press(&mut app, KeyCode::Char('u'));
    assert_eq!(shown(&app), ("aéb", 1));
    let _ = handle_key(&mut app, redo);
    assert_eq!(shown(&app), ("ab", 1));
    let _ = handle_key(&mut app, redo);
    assert_eq!(shown(&app), ("azb", 2));
    let _ = handle_key(&mut app, redo);
    assert_eq!(shown(&app), ("azb", 2));
    let _ = press(&mut app, KeyCode::Char('u'));
    let _ = press(&mut app, KeyCode::Delete);
    assert_eq!(shown(&app), ("a", 1));
    let _ = handle_key(&mut app, redo);
    assert_eq!(shown(&app), ("a", 1));
    app.project.editor_path = Some("keyboard-test/main.tex".into());
    let _ = handle_project_bibtex_paste(&mut app, "bc");
    assert_eq!(shown(&app), ("abc", 3));
    let _ = press(&mut app, KeyCode::Char('u'));
    assert_eq!(shown(&app), ("a", 1));
}

#[test]
fn the_editor_goes_to_the_bounds_of_the_file() {
    let mut app = normal("one\ntwo\nthree", 5);
    let _ = press(&mut app, KeyCode::Char('G'));
    assert_eq!(app.project.editor_cursor, 13);
    let _ = press(&mut app, KeyCode::Char('g'));
    assert_eq!(app.project.editor_cursor, 13);
    let _ = press(&mut app, KeyCode::Char('g'));
    assert_eq!(app.project.editor_cursor, 0);
    let _ = press(&mut app, KeyCode::Char('g'));
    let _ = press(&mut app, KeyCode::Char('l'));
    let _ = press(&mut app, KeyCode::Char('g'));
    assert_eq!(app.project.editor_cursor, 1);
    assert!(!app.project.editor_dirty);
}

#[test]
fn lines_are_selected_copied_and_taken_out() {
    let mut app = normal("one\ntwo\nthree\nfour", 5);
    assert!(matches!(press(&mut app, KeyCode::Char('d')), KeyEffect::Nothing));
    assert!(matches!(press(&mut app, KeyCode::Char('y')), KeyEffect::Nothing));
    let _ = press(&mut app, KeyCode::Char('V'));
    let _ = press(&mut app, KeyCode::Char('j'));
    let copied = press(&mut app, KeyCode::Char('y'));
    assert!(matches!(copied, KeyEffect::CopyText(text) if text == "two\nthree\n"));
    assert_eq!(shown(&app), ("one\ntwo\nthree\nfour", 4));
    let _ = press(&mut app, KeyCode::Char('V'));
    let _ = press(&mut app, KeyCode::Char('k'));
    let taken = press(&mut app, KeyCode::Char('d'));
    assert!(matches!(taken, KeyEffect::CopyText(text) if text == "one\ntwo\n"));
    assert_eq!(shown(&app), ("three\nfour", 0));
    assert!(app.project.editor_dirty);
    let _ = press(&mut app, KeyCode::Char('u'));
    assert_eq!(shown(&app), ("one\ntwo\nthree\nfour", 0));
    let _ = press(&mut app, KeyCode::Char('V'));
    let _ = press(&mut app, KeyCode::Char('V'));
    assert!(matches!(press(&mut app, KeyCode::Char('d')), KeyEffect::Nothing));
    assert_eq!(app.project.editor_text, "one\ntwo\nthree\nfour");
}

#[test]
fn words_are_taken_out_in_normal_mode() {
    let mut app = normal("one two three", 7);
    let _ = handle_key(&mut app, KeyEvent::new(KeyCode::Backspace, KeyModifiers::control()));
    assert_eq!(shown(&app), ("one  three", 4));
    let _ = handle_key(&mut app, KeyEvent::new(KeyCode::Delete, KeyModifiers::control()));
    assert_eq!(shown(&app), ("one three", 4));
    assert!(app.project.editor_dirty);
    let _ = press(&mut app, KeyCode::Char('u'));
    assert_eq!(shown(&app), ("one  three", 4));
}

#[test]
fn the_wheel_scrolls_the_editor() {
    let mut app = normal("1\n2\n3\n4\n5\n6", 0);
    scroll_project_editor(&mut app, MouseEventKind::ScrollDown);
    assert_eq!(app.project.editor_cursor, 6);
    scroll_project_editor(&mut app, MouseEventKind::Other);
    assert_eq!(app.project.editor_cursor, 6);
    scroll_project_editor(&mut app, MouseEventKind::ScrollUp);
    assert_eq!(app.project.editor_cursor, 0);
    app.project.pane = ProjectPane::FileTree;
    scroll_project_editor(&mut app, MouseEventKind::ScrollDown);
    assert_eq!(app.project.editor_cursor, 0);
}

#[test]
fn help_shortcut_is_global_and_editor_insert_mode_keeps_question_mark() {
    let mut library = {
        let mut made = App::default();
        made.page = Page::Library;
        made.content_focused = true;
        made
    };
    let _ = handle_key(
        &mut library,
        KeyEvent::new(KeyCode::Char('?'), KeyModifiers::none()),
    );
    assert_eq!(library.mode, AppMode::Help);

    let mut projects = project_editor_app("", 0);
    projects.project.editor_insert_mode = false;
    let _ = handle_key(
        &mut projects,
        KeyEvent::new(KeyCode::Char('?'), KeyModifiers::none()),
    );
    assert_eq!(projects.mode, AppMode::Help);

    let mut insert = project_editor_app("", 0);
    let _ = handle_key(
        &mut insert,
        KeyEvent::new(KeyCode::Char('?'), KeyModifiers::none()),
    );
    assert_eq!(insert.mode, AppMode::Normal);
    assert_eq!(insert.project.editor_text, "?");
}

#[test]
fn slash_opens_discover_search_from_projects_but_inserts_in_editor_insert_mode() {
    let mut projects = project_editor_app("", 0);
    projects.project.editor_insert_mode = false;
    let _ = handle_key(
        &mut projects,
        KeyEvent::new(KeyCode::Char('/'), KeyModifiers::none()),
    );
    assert_eq!(projects.page, Page::Discover);
    assert_eq!(projects.mode, AppMode::Search);

    let mut insert = project_editor_app("", 0);
    let _ = handle_key(
        &mut insert,
        KeyEvent::new(KeyCode::Char('/'), KeyModifiers::none()),
    );
    assert_eq!(insert.page, Page::Projects);
    assert_eq!(insert.mode, AppMode::Normal);
    assert_eq!(insert.project.editor_text, "/");
}

#[test]
fn project_editor_backspace_and_delete_remove_complete_unicode_characters() {
    let mut backspace = project_editor_app("aéb", 3);
    let _ = handle_key(
        &mut backspace,
        KeyEvent::new(KeyCode::Backspace, KeyModifiers::none()),
    );
    assert_eq!(backspace.project.editor_text, "ab");
    assert_eq!(backspace.project.editor_cursor, 1);

    let mut delete = project_editor_app("aéb", 1);
    let _ = handle_key(
        &mut delete,
        KeyEvent::new(KeyCode::Delete, KeyModifiers::none()),
    );
    assert_eq!(delete.project.editor_text, "ab");
    assert_eq!(delete.project.editor_cursor, 1);
}

#[test]
fn project_editor_navigation_keys_move_without_mutating_the_buffer() {
    let mut app = project_editor_app("abc\ndef", 2);

    let _ = handle_key(&mut app, KeyEvent::new(KeyCode::Left, KeyModifiers::none()));
    assert_eq!(app.project.editor_cursor, 1);
    let _ = handle_key(&mut app, KeyEvent::new(KeyCode::End, KeyModifiers::none()));
    assert_eq!(app.project.editor_cursor, 3);
    let _ = handle_key(&mut app, KeyEvent::new(KeyCode::Down, KeyModifiers::none()));
    assert_eq!(app.project.editor_cursor, 7);
    let _ = handle_key(&mut app, KeyEvent::new(KeyCode::Home, KeyModifiers::none()));
    assert_eq!(app.project.editor_cursor, 4);
    assert_eq!(app.project.editor_text, "abc\ndef");
    assert!(!app.project.editor_dirty);
}

#[test]
fn project_alt_number_shortcuts_select_available_panes_directly() {
    let mut app = project_editor_app("unchanged", 4);
    app.project.editor_path = Some("keyboard-test/main.tex".to_owned());
    app.project.editor_insert_mode = false;
    app.pdf.path = Some("keyboard-test/main.pdf".to_owned());
    app.pdf.on_disk = true;

    for (number, expected) in [
        ('1', ProjectPane::FileTree),
        ('2', ProjectPane::Editor),
        ('3', ProjectPane::Preview),
        ('4', ProjectPane::Build),
    ] {
        let _ = handle_key(
            &mut app,
            KeyEvent::new(KeyCode::Char(number), KeyModifiers::alt()),
        );
        assert_eq!(app.project.pane, expected);
    }
}

#[test]
fn project_alt_shortcuts_are_inactive_in_insert_mode_and_unavailable_panes_are_safe() {
    let mut app = project_editor_app("abc", 1);
    app.project.editor_path = Some("keyboard-test/main.tex".to_owned());

    let _ = handle_key(
        &mut app,
        KeyEvent::new(KeyCode::Char('4'), KeyModifiers::alt()),
    );
    assert_eq!(app.project.pane, ProjectPane::Editor);
    assert_eq!(app.project.editor_text, "abc");
    assert_eq!(app.project.editor_cursor, 1);
    assert!(app.project.editor_insert_mode);

    app.project.active = None;
    app.project.pane = ProjectPane::ProjectList;
    let _ = handle_key(
        &mut app,
        KeyEvent::new(KeyCode::Char('1'), KeyModifiers::alt()),
    );
    assert_eq!(app.project.pane, ProjectPane::ProjectList);
    assert!(app.toast.as_deref().is_some_and(|message| message.contains("Open a project")));
}

#[test]
fn project_list_right_opens_and_x_requests_confirmed_deletion() {
    let mut app = project_editor_app("", 0);
    app.project.pane = ProjectPane::ProjectList;
    let project = app.project.active.as_ref().unwrap().copy();
    app.project.items = vec![project.copy()];

    let action = handle_key(&mut app, KeyEvent::new(KeyCode::Right, KeyModifiers::none()));
    assert!(matches!(action, KeyEffect::Act(UiAction::OpenProject(opened)) if opened.path == project.path && opened.name == project.name));

    let action = handle_key(&mut app, KeyEvent::new(KeyCode::Char('x'), KeyModifiers::none()));
    assert!(matches!(action, KeyEffect::Act(UiAction::ConfirmDeleteProject(selected)) if selected.path == project.path && selected.name == project.name));
}

#[test]
fn file_tree_new_file_modal_uses_standard_text_editing() {
    let mut app = project_editor_app("", 0);
    app.project.pane = ProjectPane::FileTree;

    let _ = handle_key(&mut app, KeyEvent::new(KeyCode::Char('n'), KeyModifiers::none()));
    assert_eq!(app.mode, AppMode::ProjectFileCreate);
    for character in ['n', 'o', 't', 'e', 's', '.', 'm', 'd'] {
        let _ = handle_key(&mut app, KeyEvent::new(KeyCode::Char(character), KeyModifiers::none()));
    }
    let _ = handle_key(&mut app, KeyEvent::new(KeyCode::Left, KeyModifiers::none()));
    let _ = handle_key(&mut app, KeyEvent::new(KeyCode::Delete, KeyModifiers::none()));
    assert_eq!(app.project.rename_input, "notes.m");

    let action = handle_key(&mut app, KeyEvent::new(KeyCode::Enter, KeyModifiers::none()));
    assert!(matches!(action, KeyEffect::Act(UiAction::CreateProjectFile(name)) if name == "notes.m"));
    assert_eq!(app.mode, AppMode::Normal);
}

#[test]
fn file_tree_enters_folders_and_left_returns_to_the_parent() {
    let root = "tree".to_owned();
    let folder = "tree/assets".to_owned();

    let mut app = project_editor_app("", 0);
    app.project.active = Some(Project { name: "tree".into(), path: root.clone(), opened_at: 0 });
    app.project.pane = ProjectPane::FileTree;
    app.project.tree_dir = Some(root.clone());
    app.project.files = vec![folder.clone()];

    let effect = handle_key(&mut app, KeyEvent::new(KeyCode::Right, KeyModifiers::none()));
    let KeyEffect::OpenTreeEntry(entry) = effect else {
        panic!("expected the entry to be looked at");
    };
    assert_eq!(entry, folder);
    let logo = vec!["tree/assets/logo.tex".to_owned()];
    assert!(tree_entry_opened(&mut app, entry, Some(logo.clone())).is_none());
    assert_eq!(app.project.tree_dir, Some(folder.clone()));
    assert_eq!(app.project.files, logo);

    let effect = handle_key(&mut app, KeyEvent::new(KeyCode::Left, KeyModifiers::none()));
    assert!(matches!(effect, KeyEffect::ListTreeParent));
}

#[test]
fn file_tree_x_requests_confirmation_for_the_selected_entry() {
    let mut app = project_editor_app("", 0);
    let folder = "keyboard-test/assets".to_owned();
    app.project.pane = ProjectPane::FileTree;
    app.project.files = vec![folder.clone()];

    let action = handle_key(&mut app, KeyEvent::new(KeyCode::Char('x'), KeyModifiers::none()));

    assert!(matches!(action, KeyEffect::Act(UiAction::ConfirmDeleteProjectEntry(path)) if path == folder));
}

#[test]
fn file_tree_r_opens_the_entry_rename_prompt() {
    let mut app = project_editor_app("", 0);
    let folder = "keyboard-test/assets".to_owned();
    app.project.pane = ProjectPane::FileTree;
    app.project.files = vec![folder.clone()];

    let _ = handle_key(&mut app, KeyEvent::new(KeyCode::Char('R'), KeyModifiers::none()));

    assert_eq!(app.mode, AppMode::ProjectEntryRename);
    assert_eq!(app.project.rename_input, "assets");
    assert_eq!(app.project.entry_rename_path, Some(folder));
}

#[test]
fn project_left_navigation_follows_file_tree_then_project_list_hierarchy() {
    let mut app = project_editor_app("", 0);
    let active = app.project.active.as_ref().unwrap().copy();
    app.project.items = vec![
        Project { name: "other".into(), path: "other".into(), opened_at: 0 },
        active,
    ];
    app.project.selected = 0;
    app.project.pane = ProjectPane::FileTree;

    let _ = handle_key(&mut app, KeyEvent::new(KeyCode::Left, KeyModifiers::none()));
    assert!(app.content_focused);
    assert_eq!(app.project.pane, ProjectPane::ProjectList);
    assert_eq!(app.project.selected, 1);
    assert!(app.project.active.is_some());

    let _ = handle_key(&mut app, KeyEvent::new(KeyCode::Left, KeyModifiers::none()));
    assert!(!app.content_focused);
    assert_eq!(app.project.pane, ProjectPane::ProjectList);
    assert_eq!(app.project.selected, 1);

    let _ = handle_key(&mut app, KeyEvent::new(KeyCode::Left, KeyModifiers::none()));
    assert!(!app.content_focused);
    assert_eq!(app.project.selected, 1);
}

#[test]
fn escape_returns_to_file_tree_before_exiting_the_project() {
    let mut app = project_editor_app("abc", 1);
    let active = app.project.active.as_ref().unwrap().copy();
    app.project.items = vec![
        Project { name: "other".into(), path: "other".into(), opened_at: 0 },
        active,
    ];
    app.project.selected = 0;

    for pane in [ProjectPane::Editor, ProjectPane::Build, ProjectPane::Preview] {
        app.project.pane = pane;
        app.project.editor_insert_mode = pane == ProjectPane::Editor;

        let _ = handle_key(&mut app, KeyEvent::new(KeyCode::Esc, KeyModifiers::none()));

        assert_eq!(app.project.pane, ProjectPane::FileTree);
        assert!(app.content_focused);
        assert!(!app.project.editor_insert_mode);
    }

    let _ = handle_key(&mut app, KeyEvent::new(KeyCode::Esc, KeyModifiers::none()));
    assert_eq!(app.project.pane, ProjectPane::ProjectList);
    assert!(app.content_focused);
    assert_eq!(app.project.selected, 1);
}

#[test]
fn file_tree_right_arrow_opens_the_selected_file() {
    let mut app = project_editor_app("", 0);
    let file = "keyboard-test/references.bib".to_owned();
    app.project.pane = ProjectPane::FileTree;
    app.project.files = vec![file.clone()];

    let effect = handle_key(&mut app, KeyEvent::new(KeyCode::Right, KeyModifiers::none()));
    let KeyEffect::OpenTreeEntry(entry) = effect else {
        panic!("expected the entry to be looked at");
    };
    let action = tree_entry_opened(&mut app, entry, None);

    assert!(matches!(action, Some(UiAction::OpenProjectFile(path)) if path == file));
}

#[test]
fn project_build_and_preview_arrows_only_navigate_their_content() {
    let mut app = project_editor_app("abc", 1);
    app.project.editor_insert_mode = false;
    app.project.build_errors = (0..8).map(|line| format!("error {line}")).collect();
    app.project.build_viewport_height = 2;
    app.project.pane = ProjectPane::Build;

    let _ = handle_key(&mut app, KeyEvent::new(KeyCode::Down, KeyModifiers::none()));
    assert_eq!(app.project.build_scroll, 1);
    let _ = handle_key(&mut app, KeyEvent::new(KeyCode::PageDown, KeyModifiers::none()));
    assert_eq!(app.project.build_scroll, 3);
    let _ = handle_key(&mut app, KeyEvent::new(KeyCode::Home, KeyModifiers::none()));
    assert_eq!(app.project.build_scroll, 0);

    app.project.pane = ProjectPane::Preview;
    app.pdf.total_pages = 5;
    app.pdf.page = 3;
    let _ = handle_key(&mut app, KeyEvent::new(KeyCode::Up, KeyModifiers::none()));
    assert_eq!(app.pdf.page, 2);
    let _ = handle_key(&mut app, KeyEvent::new(KeyCode::Down, KeyModifiers::none()));
    assert_eq!(app.pdf.page, 3);
    let _ = handle_key(&mut app, KeyEvent::new(KeyCode::End, KeyModifiers::none()));
    assert_eq!(app.pdf.page, 5);
    let _ = handle_key(&mut app, KeyEvent::new(KeyCode::Left, KeyModifiers::none()));
    assert_eq!(app.pdf.page, 5);
}

#[test]
fn project_creation_uses_a_named_modal_with_standard_text_editing() {
    let mut app = {
        let mut made = App::default();
        made.page = Page::Projects;
        made.content_focused = true;
        made.project.pane = ProjectPane::ProjectList;
        made
    };

    let _ = handle_key(&mut app, KeyEvent::new(KeyCode::Char('n'), KeyModifiers::none()));
    assert_eq!(app.mode, AppMode::ProjectCreate);
    for character in ['p', 'a', 'p', 'r'] {
        let _ = handle_key(
            &mut app,
            KeyEvent::new(KeyCode::Char(character), KeyModifiers::none()),
        );
    }
    let _ = handle_key(&mut app, KeyEvent::new(KeyCode::Left, KeyModifiers::none()));
    let _ = handle_key(&mut app, KeyEvent::new(KeyCode::Delete, KeyModifiers::none()));
    assert_eq!(app.project.rename_input, "pap");

    let action = handle_key(&mut app, KeyEvent::new(KeyCode::Enter, KeyModifiers::none()));
    assert!(matches!(action, KeyEffect::Act(UiAction::CreateProject(name)) if name == "pap"));
    assert_eq!(app.mode, AppMode::Normal);
}
