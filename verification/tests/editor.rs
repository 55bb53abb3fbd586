//! Editing texts and laying them out.

use papr::config_editor::{
    build_config_editor_view, handle_config_editor_insert_key, move_config_editor_page,
    reload_config_editor_buffer, ConfigEditor,
};
use papr::edit::edit_text;
use papr::editor::{cursor_visual_position, next_word_boundary, prev_word_boundary};
use papr::keys::{KeyCode, KeyEvent, KeyModifiers};
use papr::model::App;
use papr::terminal::{run_terminal_command, TerminalRequest};
use papr::terminal_input::{parse_command, sanitize_terminal_output};

fn config_editor(text: &str) -> ConfigEditor {
    ConfigEditor {
        text: text.into(),
        cursor: 0,
        scroll: 0,
        wrap_width: 80,
        viewport_height: 20,
        goal_column: None,
        insert_mode: false,
        command: None,
        error: None,
        history: Vec::new(),
        history_idx: 0,
        focused: true,
    }
}

#[test]
fn test_word_wise_and_line_editing_navigation() {

    let text = "hello world  rust_programming  123";
    // Test word boundaries
    assert_eq!(next_word_boundary(text, 0), 6); // start of "world"
    assert_eq!(next_word_boundary(text, 6), 13); // start of "rust_programming"
    assert_eq!(next_word_boundary(text, 13), 31); // start of "123"

    assert_eq!(prev_word_boundary(text, 34), 31); // start of "123"
    assert_eq!(prev_word_boundary(text, 31), 13); // start of "rust_programming"
    assert_eq!(prev_word_boundary(text, 13), 6); // start of "world"

    let mut buffer = "first second\nthird fourth".to_owned();
    let mut cursor = 6;

    // Test Home
    edit_text(&mut buffer, &mut cursor, KeyEvent::new(KeyCode::Home, KeyModifiers::none()));
    assert_eq!(cursor, 0);

    // Test End
    edit_text(&mut buffer, &mut cursor, KeyEvent::new(KeyCode::End, KeyModifiers::none()));
    assert_eq!(cursor, 12); // end of "first second"

    // Test Ctrl + Left
    edit_text(&mut buffer, &mut cursor, KeyEvent::new(KeyCode::Left, KeyModifiers::control()));
    assert_eq!(cursor, 6); // start of "second"

    // Test Ctrl + Right
    edit_text(&mut buffer, &mut cursor, KeyEvent::new(KeyCode::Right, KeyModifiers::control()));
    assert_eq!(cursor, 13);
}

#[test]
fn insert_mode_arrow_keys_move_without_exiting_insert_mode() {
    let mut app = config_editor("abc\ndef");
    app.cursor = 1;
    app.insert_mode = true;
    app.wrap_width = 8;
    app.viewport_height = 4;

    handle_config_editor_insert_key(&mut app, KeyEvent::new(KeyCode::Right, KeyModifiers::none()));
    assert!(app.insert_mode);
    assert_eq!(app.cursor, 2);

    handle_config_editor_insert_key(&mut app, KeyEvent::new(KeyCode::Left, KeyModifiers::none()));
    assert!(app.insert_mode);
    assert_eq!(app.cursor, 1);

    handle_config_editor_insert_key(&mut app, KeyEvent::new(KeyCode::Down, KeyModifiers::none()));
    assert!(app.insert_mode);
    assert_eq!(app.cursor, 5);

    handle_config_editor_insert_key(&mut app, KeyEvent::new(KeyCode::Up, KeyModifiers::none()));
    assert!(app.insert_mode);
    assert_eq!(app.cursor, 1);
}

#[test]
fn insert_mode_vertical_movement_respects_wrapped_rows() {
    let mut app = config_editor("abcdefghij");
    app.cursor = 3;
    app.insert_mode = true;
    app.wrap_width = 4;
    app.viewport_height = 3;

    handle_config_editor_insert_key(&mut app, KeyEvent::new(KeyCode::Down, KeyModifiers::none()));
    assert_eq!(app.cursor, 7);

    handle_config_editor_insert_key(&mut app, KeyEvent::new(KeyCode::Down, KeyModifiers::none()));
    assert_eq!(app.cursor, 10);

    handle_config_editor_insert_key(&mut app, KeyEvent::new(KeyCode::Up, KeyModifiers::none()));
    assert_eq!(app.cursor, 7);
}

#[test]
fn editor_page_navigation_moves_by_the_visible_row_count() {
    let mut app = config_editor("abcdefghijklmnop");
    app.wrap_width = 4;
    app.viewport_height = 3;

    move_config_editor_page(&mut app, false);
    assert_eq!(app.cursor, 12);

    move_config_editor_page(&mut app, true);
    assert_eq!(app.cursor, 0);
}

#[test]
fn reloading_config_editor_discards_the_entire_unsaved_buffer_state() {
    let mut app = config_editor("unsaved = true");
    app.cursor = 7;
    app.insert_mode = true;
    app.error = Some("Invalid TOML".into());
    app.scroll = 4;
    app.history = vec!["original = true".into(), "unsaved = true".into()];
    app.history_idx = 1;
    app.command = Some("q".into());
    app.goal_column = Some(3);

    reload_config_editor_buffer(&mut app, Ok("theme = \"paper\"\n".into()));

    assert_eq!(app.text, "theme = \"paper\"\n");
    assert_eq!(app.cursor, 0);
    assert_eq!(app.scroll, 0);
    assert_eq!(app.history, vec!["theme = \"paper\"\n"]);
    assert_eq!(app.history_idx, 0);
    assert!(!app.insert_mode);
    assert!(app.command.is_none());
    assert!(app.error.is_none());
    assert!(app.goal_column.is_none());
}

#[test]
fn wrapped_editor_view_tracks_visual_cursor_and_scroll() {
    let text = "abcd\nefghijkl";
    let mut scroll = 0;
    let view = build_config_editor_view(text, 11, 4, 2, &mut scroll);

    assert_eq!(view.lines, vec!["  1 abcd", "  2 efgh", "    ijkl"]);
    assert_eq!((view.cursor_row, view.cursor_col), (2, 2));
    assert_eq!(scroll, 1);
}

#[test]
fn main_cursor_visual_position_handles_wrap_boundary_at_line_end() {
    let (row, col) = cursor_visual_position("abcd", 4, 4);
    assert_eq!((row, col), (0, 3));
}

#[test]
fn editor_cursor_visual_position_handles_wrap_boundary_at_line_end() {
    assert_eq!(cursor_visual_position("abcd", 4, 4), (0, 3));
}

#[test]
fn editor_view_expands_tabs_and_maps_the_cursor_to_the_visible_tab_stop() {
    let mut scroll = 0;
    let view = build_config_editor_view("\tX", 1, 20, 4, &mut scroll);

    assert_eq!(view.cursor_row, 0);
    assert_eq!(view.cursor_col, 4);
    assert_eq!(view.lines, vec!["  1     X"]);
}

#[test]
fn parses_pdf_viewer_command_with_arguments() {
    assert_eq!(parse_command("xdg-open").unwrap(), vec!["xdg-open"]);
    assert_eq!(
        parse_command("'tdf viewer' --flag {path}").unwrap(),
        vec!["tdf viewer", "--flag", "{path}"]
    );
}

#[test]
fn terminal_clear_and_control_sequences_stay_inside_the_palette() {
    let mut app = App::default();
    app.terminal.output = "previous output".into();
    app.terminal.command = "clear".into();

    let request = run_terminal_command(&mut app.terminal);
    assert!(matches!(request, TerminalRequest::Nothing));

    assert!(app.terminal.output.is_empty());
    assert!(app.terminal.command.is_empty());
    assert_eq!(sanitize_terminal_output("safe\u{1b}[2Jtext"), "safe[2Jtext");
}
