//! The settings.

use papr::keys::{KeyCode, KeyEvent, KeyModifiers};
use papr::model::{App, AppMode, Page};
use papr::settings_modal::{
    handle_settings_key, open_settings_modal, staged_config, validate_path, Config,
    GeneralTabFocus, PathEntryState, PathsTabFocus, SettingsKeyResult, SettingsModalState,
    SettingsTab,
};
use papr::theme::theme_position;

#[test]
fn test_settings_tab_wrapping() {
    assert_eq!(SettingsTab::Theme.next(), SettingsTab::General);
    assert_eq!(SettingsTab::General.next(), SettingsTab::Paths);
    assert_eq!(SettingsTab::Paths.next(), SettingsTab::Plugins);
    assert_eq!(SettingsTab::Plugins.next(), SettingsTab::Theme);

    assert_eq!(SettingsTab::Theme.prev(), SettingsTab::Plugins);
    assert_eq!(SettingsTab::Plugins.prev(), SettingsTab::Paths);
}

#[test]
fn test_staged_config_building() {
    let mut modal = SettingsModalState::default();
    modal.startup_page_selected = 1;
    modal.download_path = "/tmp/downloads".into();
    modal.projects_directory = "/tmp/projects".into();
    modal.library_entries = vec![
        PathEntryState::new("/home/user/papers".into()),
        PathEntryState::new("".into()),
    ];
    modal.enabled_plugins = vec!["plugin-a".into()];

    let options = vec!["dashboard".into(), "discover".into(), "library".into()];
    let base = Config {
        theme: "nord".into(),
        startup_page: "dashboard".into(),
        pdf_viewer: None,
        library_folders: Vec::new(),
        download_path: None,
        projects_directory: None,
        dashboard_keywords: String::new(),
        enabled_plugins: Vec::new(),
    };
    let config = staged_config(&modal, &options, &base);

    assert_eq!(config.startup_page, "discover");
    assert_eq!(config.download_path, Some("/tmp/downloads".to_owned()));
    assert_eq!(
        config.projects_directory,
        Some("/tmp/projects".to_owned())
    );
    assert_eq!(
        config.library_folders,
        vec!["/home/user/papers".to_owned()]
    );
    assert_eq!(config.enabled_plugins, vec!["plugin-a"]);
}

#[test]
fn test_path_validation() {
    assert_eq!(validate_path(""), None);
    assert_eq!(validate_path("/absolute/path"), None);
    assert_eq!(
        validate_path("relative/path"),
        Some("Path must be absolute".to_owned())
    );
}

#[test]
fn settings_text_fields_keep_layout_resolved_shifted_characters() {
    let mut app = App::default();
    let mut modal = SettingsModalState::default();
    modal.tab = SettingsTab::General;
    modal.tab_bar_focused = false;
    modal.general_focus = GeneralTabFocus::PdfViewer;
    modal.pdf_viewer_editing = true;

    for character in ['A', '!', '?', '_'] {
        let result = handle_settings_key(
            &mut app, &mut modal,
            KeyEvent::new(KeyCode::Char(character), KeyModifiers::shift()),
        );
        assert!(matches!(result, SettingsKeyResult::Handled));
        assert!(modal.pdf_viewer.ends_with(character));
    }
    assert_eq!(modal.pdf_viewer, "A!?_");
}

#[test]
fn test_theme_preview_reverts_on_tab_switch() {
    let mut app = App::default();
    let mut modal = SettingsModalState::default();
    modal.tab = SettingsTab::Theme;
    modal.tab_bar_focused = true;
    modal.original_theme = "catppuccin-mocha".into();

    let key_right = KeyEvent::new(KeyCode::Right, KeyModifiers::none());
    let res = handle_settings_key(&mut app, &mut modal, key_right);

    assert_eq!(modal.tab, SettingsTab::General);
    if let SettingsKeyResult::PreviewTheme(reverted) = res {
        assert_eq!(reverted, "catppuccin-mocha");
    } else {
        panic!("Expected PreviewTheme with original theme on tab switch from Theme");
    }
}

#[test]
fn theme_tab_left_arrow_returns_to_sidebar() {
    let mut app = App::default();
    let mut modal = SettingsModalState::default();
    modal.tab = SettingsTab::Theme;
    modal.tab_bar_focused = true;

    let result = handle_settings_key(
        &mut app, &mut modal,
        KeyEvent::new(KeyCode::Left, KeyModifiers::none()),
    );

    assert!(matches!(result, SettingsKeyResult::ReturnToSidebar));
    assert_eq!(modal.tab, SettingsTab::Theme);
    assert!(modal.tab_bar_focused);
}

#[test]
fn theme_list_left_arrow_returns_to_sidebar() {
    let mut app = App::default();
    let mut modal = SettingsModalState::default();
    modal.tab = SettingsTab::Theme;
    modal.tab_bar_focused = false;

    let result = handle_settings_key(
        &mut app, &mut modal,
        KeyEvent::new(KeyCode::Left, KeyModifiers::none()),
    );

    assert!(matches!(result, SettingsKeyResult::ReturnToSidebar));
    assert_eq!(modal.tab, SettingsTab::Theme);
    assert!(!modal.tab_bar_focused);
}

#[test]
fn test_theme_list_left_right_cycles_tabs() {
    let mut app = App::default();
    let mut modal = SettingsModalState::default();
    modal.tab = SettingsTab::Theme;
    modal.tab_bar_focused = false; // Focused inside Theme list
    modal.original_theme = "catppuccin-mocha".into();

    let key_right = KeyEvent::new(KeyCode::Right, KeyModifiers::none());
    let res = handle_settings_key(&mut app, &mut modal, key_right);

    assert_eq!(modal.tab, SettingsTab::General);
    assert!(modal.tab_bar_focused);
    if let SettingsKeyResult::PreviewTheme(reverted) = res {
        assert_eq!(reverted, "catppuccin-mocha");
    } else {
        panic!("Expected PreviewTheme with original theme on Right key in Theme list");
    }
}

#[test]
fn test_quit_key_behavior() {
    let mut app = App::default();
    let mut modal = SettingsModalState::default();
    let key_q = KeyEvent::new(KeyCode::Char('q'), KeyModifiers::none());

    // Outside edit mode -> returns SettingsKeyResult::Quit
    let res = handle_settings_key(&mut app, &mut modal, key_q);
    assert!(matches!(res, SettingsKeyResult::Quit));

    // Inside text edit mode -> types 'q' into text input
    modal.tab = SettingsTab::General;
    modal.tab_bar_focused = false;
    modal.general_focus = GeneralTabFocus::PdfViewer;
    modal.pdf_viewer_editing = true;
    modal.pdf_viewer = String::new();
    modal.pdf_viewer_cursor = 0;

    let res_edit = handle_settings_key(&mut app, &mut modal, key_q);
    assert!(matches!(res_edit, SettingsKeyResult::Handled));
    assert_eq!(modal.pdf_viewer, "q");
    assert!(modal.pdf_viewer_editing);
}

#[test]
fn text_fields_delete_words_with_control_backspace_and_delete() {
    let mut app = App::default();
    let mut modal = SettingsModalState::default();
    modal.tab = SettingsTab::General;
    modal.tab_bar_focused = false;
    modal.general_focus = GeneralTabFocus::PdfViewer;
    modal.pdf_viewer_editing = true;
    modal.pdf_viewer = "alpha, beta".into();
    modal.pdf_viewer_cursor = modal.pdf_viewer.len();

    let _ = handle_settings_key(&mut app, &mut modal, KeyEvent::new(KeyCode::Backspace, KeyModifiers::control()));
    assert_eq!(modal.pdf_viewer, "alpha, ");

    modal.pdf_viewer_cursor = 0;
    let _ = handle_settings_key(&mut app, &mut modal, KeyEvent::new(KeyCode::Delete, KeyModifiers::control()));
    assert_eq!(modal.pdf_viewer, ", ");
}

#[test]
fn slash_opens_discovery_unless_a_settings_text_field_is_being_edited() {
    let mut app = App::default();
    let mut modal = SettingsModalState::default();
    app.page = Page::Settings;
    app.content_focused = true;

    let result = handle_settings_key(
        &mut app, &mut modal,
        KeyEvent::new(KeyCode::Char('/'), KeyModifiers::none()),
    );

    assert!(matches!(result, SettingsKeyResult::Handled));
    assert_eq!(app.page, Page::Discover);
    assert_eq!(app.mode, AppMode::Search);
    assert!(app.content_focused);

    app.page = Page::Settings;
    app.mode = AppMode::Normal;
    modal.tab = SettingsTab::General;
    modal.tab_bar_focused = false;
    modal.general_focus = GeneralTabFocus::PdfViewer;
    modal.pdf_viewer_editing = true;
    modal.pdf_viewer.clear();
    modal.pdf_viewer_cursor = 0;

    let result = handle_settings_key(
        &mut app, &mut modal,
        KeyEvent::new(KeyCode::Char('/'), KeyModifiers::none()),
    );

    assert!(matches!(result, SettingsKeyResult::Handled));
    assert_eq!(app.page, Page::Settings);
    assert_eq!(app.mode, AppMode::Normal);
    assert_eq!(modal.pdf_viewer, "/");
}

#[test]
fn test_startup_page_consumes_left_right_without_tab_switch() {
    let mut app = App::default();
    let mut modal = SettingsModalState::default();
    modal.tab = SettingsTab::General;
    modal.tab_bar_focused = false;
    modal.general_focus = GeneralTabFocus::StartupPage;
    modal.startup_page_selected = 0;

    let key_right = KeyEvent::new(KeyCode::Right, KeyModifiers::none());
    let res = handle_settings_key(&mut app, &mut modal, key_right);

    // Tab should remain General, while startup_page_selected advances to 1 without saving immediately
    assert_eq!(modal.tab, SettingsTab::General);
    assert_eq!(modal.startup_page_selected, 1);
    assert!(matches!(res, SettingsKeyResult::Handled));

    // Pressing Enter applies the selected startup page change
    let key_enter = KeyEvent::new(KeyCode::Enter, KeyModifiers::none());
    let res_enter = handle_settings_key(&mut app, &mut modal, key_enter);
    assert!(matches!(res_enter, SettingsKeyResult::Apply));
}

#[test]
fn test_universal_left_right_tab_cycling() {
    let mut app = App::default();
    let mut modal = SettingsModalState::default();
    modal.tab = SettingsTab::Plugins;
    modal.tab_bar_focused = false; // Focused in Plugins list

    let key_right = KeyEvent::new(KeyCode::Right, KeyModifiers::none());
    let res = handle_settings_key(&mut app, &mut modal, key_right);

    // Right from Plugins wraps around to Theme
    assert_eq!(modal.tab, SettingsTab::Theme);
    assert!(modal.tab_bar_focused);
    assert!(matches!(res, SettingsKeyResult::Handled));
}

#[test]
fn test_immediate_path_edit_apply_and_validation_failure() {
    let mut app = App::default();
    let mut modal = SettingsModalState::default();
    modal.tab = SettingsTab::Paths;
    modal.tab_bar_focused = false;
    modal.paths_focus = PathsTabFocus::DownloadPath;
    modal.download_path_editing = true;

    // 1. Valid absolute path edit -> returns SettingsKeyResult::Apply immediately
    modal.download_path = "/valid/download/dir".into();
    let key_enter = KeyEvent::new(KeyCode::Enter, KeyModifiers::none());
    let res_valid = handle_settings_key(&mut app, &mut modal, key_enter);
    assert!(matches!(res_valid, SettingsKeyResult::Apply));
    assert_eq!(modal.download_path_error, None);
    assert!(!modal.download_path_editing);

    // 2. Invalid relative path edit -> returns SettingsKeyResult::Handled, sets inline error
    modal.download_path_editing = true;
    modal.download_path = "relative/download/dir".into();
    let res_invalid = handle_settings_key(&mut app, &mut modal, key_enter);
    assert!(matches!(res_invalid, SettingsKeyResult::Handled));
    assert_eq!(
        modal.download_path_error,
        Some("Path must be absolute".to_string())
    );
}

#[test]
fn test_immediate_library_folder_actions_apply() {
    let mut app = App::default();
    let mut modal = SettingsModalState::default();
    modal.tab = SettingsTab::Paths;
    modal.tab_bar_focused = false;
    modal.paths_focus = PathsTabFocus::LibraryFolders;
    modal.library_entries = vec![
        PathEntryState::new("/home/user/papers1".into()),
        PathEntryState::new("/home/user/papers2".into()),
    ];
    modal.library_selected = 0;

    // Delete action 'd' -> returns SettingsKeyResult::Apply immediately
    let key_d = KeyEvent::new(KeyCode::Char('d'), KeyModifiers::none());
    let res_d = handle_settings_key(&mut app, &mut modal, key_d);
    assert!(matches!(res_d, SettingsKeyResult::Apply));
    assert_eq!(modal.library_entries.len(), 1);

    // Reorder action 'J' -> returns SettingsKeyResult::Apply immediately
    modal.library_entries.push(PathEntryState::new("/home/user/papers3".into()));
    modal.library_selected = 0;
    let key_j_upper = KeyEvent::new(KeyCode::Char('J'), KeyModifiers::none());
    let res_j = handle_settings_key(&mut app, &mut modal, key_j_upper);
    assert!(matches!(res_j, SettingsKeyResult::Apply));
    assert_eq!(
        modal.library_entries[0].text,
        "/home/user/papers3"
    );
}

#[test]
fn test_theme_selection_always_syncs_with_applied_theme() {
    let mut app = App::default();
    let mut modal = SettingsModalState::default();
    modal.original_theme = "dracula".into();

    // 1. Entering Theme tab should move selection to "dracula"
    modal.tab = SettingsTab::General;
    modal.tab_bar_focused = true;
    let key_left = KeyEvent::new(KeyCode::Left, KeyModifiers::none());
    let _ = handle_settings_key(&mut app, &mut modal, key_left);

    assert_eq!(modal.tab, SettingsTab::Theme);
    let dracula_idx = theme_position("dracula").unwrap();
    assert_eq!(modal.theme_selected, dracula_idx);

    // 2. Previewing another theme (moving down 2 items)
    modal.tab_bar_focused = false;
    let key_down = KeyEvent::new(KeyCode::Down, KeyModifiers::none());
    let _ = handle_settings_key(&mut app, &mut modal, key_down);
    assert_eq!(modal.theme_selected, dracula_idx + 1);

    // 3. Leaving Theme tab without applying should revert selection back to "dracula"
    let key_right = KeyEvent::new(KeyCode::Right, KeyModifiers::none());
    let _ = handle_settings_key(&mut app, &mut modal, key_right);
    assert_eq!(modal.theme_selected, dracula_idx);
}

#[test]
fn test_dashboard_keywords_actions_and_validation() {
    let mut app = App::default();
    let mut modal = SettingsModalState::default();
    modal.tab = SettingsTab::General;
    modal.tab_bar_focused = false;
    modal.general_focus = GeneralTabFocus::DashboardKeywords;
    modal.keyword_entries = vec![
        PathEntryState::new("quantum computing".into()),
        PathEntryState::new("machine learning".into()),
    ];
    modal.keyword_selected = 0;

    // 1. Reorder 'J' -> swaps entries and returns Apply immediately
    let key_j = KeyEvent::new(KeyCode::Char('J'), KeyModifiers::none());
    let res_j = handle_settings_key(&mut app, &mut modal, key_j);
    assert!(matches!(res_j, SettingsKeyResult::Apply));
    assert_eq!(
        modal.keyword_entries[0].text,
        "machine learning"
    );

    // 2. Add 'a' -> appends empty entry and enters editing
    let key_a = KeyEvent::new(KeyCode::Char('a'), KeyModifiers::none());
    let _ = handle_settings_key(&mut app, &mut modal, key_a);
    assert_eq!(modal.keyword_entries.len(), 3);
    assert!(modal.keyword_editing);
    assert_eq!(modal.keyword_selected, 2);

    // 3. Submitting empty string -> returns Handled, shows error, stays editing
    let key_enter = KeyEvent::new(KeyCode::Enter, KeyModifiers::none());
    let res_empty = handle_settings_key(&mut app, &mut modal, key_enter);
    assert!(matches!(res_empty, SettingsKeyResult::Handled));
    assert!(modal.keyword_editing);
    assert_eq!(
        modal.keyword_entries[2].error,
        Some("Keyword cannot be empty".to_string())
    );

    // 4. Typing a valid keyword and hitting Enter -> returns Apply and exits editing
    let key_g = KeyEvent::new(KeyCode::Char('g'), KeyModifiers::none());
    let _ = handle_settings_key(&mut app, &mut modal, key_g);
    let res_valid = handle_settings_key(&mut app, &mut modal, key_enter);
    assert!(matches!(res_valid, SettingsKeyResult::Apply));
    assert!(!modal.keyword_editing);
    assert_eq!(modal.keyword_entries[2].text, "g");

    // 5. Delete 'd' -> removes entry and returns Apply
    let key_d = KeyEvent::new(KeyCode::Char('d'), KeyModifiers::none());
    let res_d = handle_settings_key(&mut app, &mut modal, key_d);
    assert!(matches!(res_d, SettingsKeyResult::Apply));
    assert_eq!(modal.keyword_entries.len(), 2);
}

#[test]
fn test_ctrl_b_shortcut_handling() {
    let mut app = App::default();
    let mut modal = SettingsModalState::default();
    let key_ctrl_b = KeyEvent::new(KeyCode::Char('b'), KeyModifiers::control());

    // Outside text edit mode -> dispatches Command::TogglePalette and returns Handled
    let res = handle_settings_key(&mut app, &mut modal, key_ctrl_b);
    assert!(matches!(res, SettingsKeyResult::Handled));
    assert_eq!(app.mode, AppMode::CommandPalette);

    // Reset mode
    app.mode = AppMode::Normal;

    // Inside text edit mode -> does not interrupt text edit mode
    modal.tab = SettingsTab::General;
    modal.general_focus = GeneralTabFocus::PdfViewer;
    modal.pdf_viewer_editing = true;

    let _ = handle_settings_key(&mut app, &mut modal, key_ctrl_b);
    assert_ne!(app.mode, AppMode::CommandPalette);
    assert!(modal.pdf_viewer_editing);
}

#[test]
fn test_question_mark_shortcut_handling() {
    let mut app = App::default();
    let mut modal = SettingsModalState::default();
    let key_question = KeyEvent::new(KeyCode::Char('/'), KeyModifiers::shift());

    // Outside text edit mode -> dispatches Command::ToggleHelp and returns Handled
    let res = handle_settings_key(&mut app, &mut modal, key_question);
    assert!(matches!(res, SettingsKeyResult::Handled));
    assert_eq!(app.mode, AppMode::Help);

    // Reset mode
    app.mode = AppMode::Normal;

    // Inside text edit mode -> types '?' into text box instead of toggling Help
    modal.tab = SettingsTab::General;
    modal.tab_bar_focused = false;
    modal.general_focus = GeneralTabFocus::PdfViewer;
    modal.pdf_viewer_editing = true;
    modal.pdf_viewer = "zathura".to_string();
    modal.pdf_viewer_cursor = 7;

    let _ = handle_settings_key(&mut app, &mut modal, key_question);
    assert_ne!(app.mode, AppMode::Help);
    assert!(modal.pdf_viewer_editing);
    assert_eq!(modal.pdf_viewer, "zathura?");
}

#[test]
fn what_is_staged_is_what_was_shown() {
    let config = Config {
        theme: "nord".into(),
        startup_page: "library".into(),
        pdf_viewer: Some("internal".into()),
        library_folders: vec!["/lib".into(), " ".into()],
        download_path: None,
        projects_directory: Some("/projects".into()),
        dashboard_keywords: " quantum gravity,, optics ".into(),
        enabled_plugins: vec!["auto-tagger".into()],
    };
    let mut app = App::default();
    let mut modal = SettingsModalState::default();
    open_settings_modal(&mut app, &mut modal, &config, "NORD");
    let staged = staged_config(&modal, &modal.startup_page_options, &config);
    assert_eq!(staged.theme, "nord");
    assert_eq!(staged.startup_page, "library");
    assert_eq!(staged.pdf_viewer.as_deref(), Some("internal"));
    assert_eq!(staged.library_folders, ["/lib"]);
    assert_eq!(staged.download_path, None);
    assert_eq!(staged.projects_directory.as_deref(), Some("/projects"));
    assert_eq!(staged.dashboard_keywords, "quantum gravity, optics");
    assert_eq!(staged.dashboard_keyword_list(), ["quantum gravity", "optics"]);
    assert_eq!(staged.dashboard_keyword_list(), config.dashboard_keyword_list());
    assert_eq!(staged.enabled_plugins, ["auto-tagger"]);
}
