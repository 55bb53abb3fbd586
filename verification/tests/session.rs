//! The rounds of the main loop and the configuration editor.

use papr::config_editor::{
    build_config_editor_view, config_discarded, config_saved, handle_config_editor_key,
    record_config_history, reset_config_editor_buffer, takes_config_key, ConfigEditor,
    ConfigRequest, SaveOutcome, HISTORY_LIMIT,
};
use papr::effect::KeyEffect;
use papr::input::handle_key;
use papr::keys::{KeyCode, KeyEvent, KeyEventKind, KeyModifiers};
use papr::model::{App, AppMode, Command, Page};
use papr::navigation::{navigation_command, normalize_panel_navigation};
use papr::runtime::{
    enrichment_idle, handle_mouse, is_due, is_preview_active, must_revert_theme, note_page,
    poll_timeout, route_event, tick_toast, KeyRoute, MouseEventKind,
};

fn key(code: KeyCode) -> KeyEvent {
    KeyEvent::new(code, KeyModifiers::none())
}

#[test]
fn messages_stay_for_seven_seconds() {
    let mut app = App::default();
    let mut last = None;
    app.toast = Some("hello".into());
    assert!(tick_toast(&mut app, &mut last, 1_000));
    assert!(!tick_toast(&mut app, &mut last, 7_999));
    app.toast = Some("again".into());
    assert!(tick_toast(&mut app, &mut last, 7_999));
    assert!(!tick_toast(&mut app, &mut last, 14_998));
    assert!(tick_toast(&mut app, &mut last, 14_999));
    assert_eq!((app.toast, last), (None, None));
}

#[test]
fn events_are_waited_for_shortly_while_something_moves() {
    assert_eq!(poll_timeout(false, true, false), 100);
    assert_eq!(poll_timeout(true, true, true), 8);
    assert_eq!(poll_timeout(true, false, true), 250);
    assert_eq!(poll_timeout(true, false, false), 50);
    assert!(is_due(0, 1_000, 1_000));
    assert!(!is_due(1, 1_000, 1_000));
}

#[test]
fn the_wheel_scrolls_documents() {
    let up = handle_mouse(AppMode::PdfView, MouseEventKind::ScrollUp);
    assert!(matches!(up, KeyEffect::ScrollPdf(-3)));
    let down = handle_mouse(AppMode::PdfView, MouseEventKind::ScrollDown);
    assert!(matches!(down, KeyEffect::ScrollPdf(3)));
    let none = handle_mouse(AppMode::Normal, MouseEventKind::ScrollDown);
    assert!(matches!(none, KeyEffect::Nothing));
}

#[test]
fn keys_go_to_the_settings_only_while_they_have_the_focus() {
    let mut app = App::default();
    assert!(matches!(route_event(&app, KeyEventKind::Press), KeyRoute::Program));
    assert!(matches!(route_event(&app, KeyEventKind::Release), KeyRoute::Ignored));
    assert!(matches!(route_event(&app, KeyEventKind::Repeat), KeyRoute::Ignored));
    app.mode = AppMode::PdfView;
    assert!(matches!(route_event(&app, KeyEventKind::Repeat), KeyRoute::Program));
    assert!(is_preview_active(&app));
    app.mode = AppMode::Normal;
    app.page = Page::Settings;
    app.content_focused = true;
    assert!(matches!(route_event(&app, KeyEventKind::Press), KeyRoute::Settings));
}

#[test]
fn another_section_starts_without_a_search() {
    let mut app = App::default();
    app.search.query = "light".into();
    app.search.query_cursor = 5;
    app.page = Page::Settings;
    let change = note_page(&mut app, Some(Page::Library));
    assert!(change.changed && change.open_settings && !change.refresh_dashboard);
    assert_eq!((app.search.query.as_str(), app.search.query_cursor), ("", 0));
    assert!(!note_page(&mut app, Some(Page::Settings)).changed);
    app.page = Page::Dashboard;
    let change = note_page(&mut app, Some(Page::Settings));
    assert!(change.revert_theme && change.refresh_dashboard);
    assert!(must_revert_theme("nord", "dracula"));
    assert!(!must_revert_theme("", "dracula"));
    app.enrichment_pending = true;
    assert!(!enrichment_idle(&mut app, true));
    assert!(enrichment_idle(&mut app, false));
}

#[test]
fn help_gives_the_view_back() {
    let mut app = App::default();
    app.page = Page::Library;
    app.dispatch(Command::ToggleHelp);
    assert_eq!(app.mode, AppMode::Help);
    app.dispatch(Command::ToggleHelp);
    assert_eq!((app.mode, app.page), (AppMode::Normal, Page::Library));
}

#[test]
fn panels_are_moved_through_by_letters_too() {
    assert_eq!(navigation_command(key(KeyCode::Char('j'))), Some(Command::MoveDown));
    assert_eq!(navigation_command(key(KeyCode::Up)), Some(Command::MoveUp));
    assert_eq!(navigation_command(key(KeyCode::Char('z'))), None);
    let right = normalize_panel_navigation(key(KeyCode::Char('l')));
    assert_eq!(right.code, normalize_panel_navigation(key(KeyCode::Right)).code);
}

#[test]
fn carets_stay_between_characters() {
    let mut app = App::default();
    let _ = handle_key(&mut app, KeyEvent::new(KeyCode::Char('b'), KeyModifiers::control()));
    for code in [
        KeyCode::Char('é'),
        KeyCode::Char('日'),
        KeyCode::Left,
        KeyCode::Backspace,
        KeyCode::Home,
        KeyCode::Delete,
        KeyCode::End,
        KeyCode::Char('ß'),
    ] {
        let _ = handle_key(&mut app, key(code));
        assert!(app.palette.query.is_char_boundary(app.palette.query_cursor));
    }
    assert_eq!(app.palette.query, "ß");
}

fn editor(text: &str) -> ConfigEditor {
    let mut e = ConfigEditor {
        text: String::new(),
        cursor: 0,
        scroll: 0,
        wrap_width: 80,
        viewport_height: 10,
        goal_column: None,
        insert_mode: false,
        command: None,
        error: None,
        history: vec![String::new()],
        history_idx: 0,
        focused: true,
    };
    reset_config_editor_buffer(&mut e, text.to_owned());
    e
}

#[test]
fn the_configuration_is_edited_and_undone() {
    let mut app = App::default();
    let mut e = editor("a = 1");
    for code in [KeyCode::Char('i'), KeyCode::Char('#'), KeyCode::Char('#'), KeyCode::Esc] {
        assert!(matches!(handle_config_editor_key(&mut app, &mut e, key(code)), ConfigRequest::Nothing));
    }
    assert_eq!(e.text, "##a = 1");
    assert!(!e.insert_mode);
    let _ = handle_config_editor_key(&mut app, &mut e, key(KeyCode::Char('u')));
    assert_eq!(e.text, "a = 1");
    for code in [KeyCode::Char(':'), KeyCode::Char('w'), KeyCode::Char('q')] {
        let _ = handle_config_editor_key(&mut app, &mut e, key(code));
    }
    let request = handle_config_editor_key(&mut app, &mut e, key(KeyCode::Enter));
    assert!(matches!(request, ConfigRequest::Save { quit: true }));
}

/// An editor that shows an earlier text again, with its caret within a character.
fn adrift(app: &mut App) -> ConfigEditor {
    let mut e = editor("é");
    for code in [
        KeyCode::Char('x'),
        KeyCode::Char('i'),
        KeyCode::Char('a'),
        KeyCode::Esc,
        KeyCode::Char('u'),
    ] {
        assert!(takes_config_key(&e, key(code)));
        let _ = handle_config_editor_key(app, &mut e, key(code));
    }
    assert_eq!((e.text.as_str(), e.cursor), ("é", 1));
    e
}

#[test]
fn a_caret_steps_out_of_a_character() {
    let mut app = App::default();
    for (code, place) in [(KeyCode::Char('h'), 0), (KeyCode::Right, 2)] {
        let mut e = adrift(&mut app);
        assert!(!takes_config_key(&e, key(KeyCode::Char('x'))));
        assert!(!takes_config_key(&e, key(KeyCode::Down)));
        assert!(takes_config_key(&e, key(code)));
        let _ = handle_config_editor_key(&mut app, &mut e, key(code));
        assert_eq!((e.text.as_str(), e.cursor), ("é", place));
        assert!(takes_config_key(&e, key(KeyCode::Char('x'))));
    }
    let mut e = adrift(&mut app);
    for code in [KeyCode::Char('i'), KeyCode::Left] {
        assert!(takes_config_key(&e, key(code)));
        let _ = handle_config_editor_key(&mut app, &mut e, key(code));
    }
    assert!(e.insert_mode);
    assert_eq!(e.cursor, 0);
    let mut e = adrift(&mut app);
    for code in [KeyCode::Char(':'), KeyCode::Char('w')] {
        let _ = handle_config_editor_key(&mut app, &mut e, key(code));
    }
    let request = handle_config_editor_key(&mut app, &mut e, key(KeyCode::Enter));
    assert!(matches!(request, ConfigRequest::Save { quit: false }));
}

#[test]
fn the_history_of_the_configuration_is_bounded() {
    let mut e = editor("start");
    for i in 0..120 {
        e.text = format!("text {i}");
        record_config_history(&mut e);
        record_config_history(&mut e);
    }
    assert_eq!(e.history.len(), HISTORY_LIMIT);
    assert_eq!(e.history.last().map(String::as_str), Some("text 119"));
}

#[test]
fn saving_the_configuration_is_told() {
    let mut app = App::default();
    let mut e = editor("a = 1");
    assert!(!config_saved(&mut app, &mut e, SaveOutcome::Invalid("line 1".into()), false));
    assert!(e.error.as_deref().unwrap().contains("line 1"));
    let saved = SaveOutcome::Saved { text: "a = 1\n".into(), applied: Ok(()) };
    assert!(config_saved(&mut app, &mut e, saved, false));
    assert_eq!(e.error, None);
    assert!(!config_saved(&mut app, &mut e, SaveOutcome::WriteFailed("full".into()), false));
    assert!(!config_saved(&mut app, &mut e, SaveOutcome::Unwritable("x".into()), false));
    config_discarded(&mut app, &mut e, Ok("stored".into()));
    assert_eq!(e.text, "stored");
}

#[test]
fn the_caret_of_the_configuration_stays_in_view() {
    let text = "one\ntwo\nthree\nfour";
    let mut scroll = 0;
    let view = build_config_editor_view(text, text.len(), 80, 2, &mut scroll);
    assert_eq!((view.lines.len(), view.cursor_row, view.cursor_col), (4, 3, 4));
    assert_eq!(scroll, 2);
}
