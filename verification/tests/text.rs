//! Text under a caret, and the fields and lists around it.

use papr::chars::{char_class, char_classes, to_ascii_lower, CharClass};
use papr::dashboard::{
    apply_today_response, daily_paper_rank, dashboard_keyword_signature, gather_buckets,
    keyword_priority_weights, keyword_representation_targets, keyword_terms, latest_feed,
    refresh_dashboard_papers, title_match_strength, Bucket, DashboardFeedKey,
};
use papr::edit::{apply_editor_insert_key, edit_text, EditorInsertResult};
use papr::editor::{
    byte_index_for_char_column, config_editor_line_end, config_editor_line_start,
    config_editor_wrap_rows, cursor_from_visual_position, cursor_visual_position,
    expand_tabs_for_editor_view, next_char_boundary, next_word_boundary, prev_char_boundary,
    prev_word_boundary, project_editor_line_at,
};
use papr::field::{edit_field, text_input_char};
use papr::keys::{KeyCode, KeyEvent, KeyModifiers};
use papr::model::{App, DiscoveryStatus, RemotePaper};
use papr::rows::{filtered_results, page_title, query_matches};
use papr::settings_modal::{
    entry_layout, list_scroll, page_from_config, return_to_sidebar, settings_applied,
    startup_line, startup_page_options, theme_label, ApplyOutcome, Config, PathEntryState,
    SettingsModalState, SettingsTab,
};
use papr::config_editor::ConfigEditor;
use papr::model::Page;
use papr::strings::{join, to_decimal, to_signed_decimal, trim};

fn key(code: KeyCode) -> KeyEvent {
    KeyEvent::new(code, KeyModifiers::none())
}

#[test]
fn typing_and_erasing_undo_each_other() {
    let mut text = "añb".to_owned();
    let mut cursor = 3;
    assert!(edit_text(&mut text, &mut cursor, key(KeyCode::Char('日'))));
    assert_eq!((text.as_str(), cursor), ("añ日b", 6));
    assert!(edit_text(&mut text, &mut cursor, key(KeyCode::Backspace)));
    assert_eq!((text.as_str(), cursor), ("añb", 3));
    let controlled = KeyEvent::new(KeyCode::Char('x'), KeyModifiers::control());
    assert!(!edit_text(&mut text, &mut cursor, controlled));
    assert_eq!(text, "añb");
}

#[test]
fn the_editor_reports_what_a_key_did() {
    let mut text = "ab".to_owned();
    let mut cursor = 1;
    let press = |text: &mut String, cursor: &mut usize, code| apply_editor_insert_key(text, cursor, key(code));
    assert!(matches!(press(&mut text, &mut cursor, KeyCode::Enter), EditorInsertResult::Changed));
    assert_eq!(text, "a\nb");
    assert!(matches!(press(&mut text, &mut cursor, KeyCode::Left), EditorInsertResult::Moved));
    assert!(matches!(press(&mut text, &mut cursor, KeyCode::Esc), EditorInsertResult::ExitInsert));
    assert!(matches!(press(&mut text, &mut cursor, KeyCode::Other), EditorInsertResult::Ignored));
    assert_eq!((text.as_str(), cursor), ("a\nb", 1));
}

#[test]
fn rows_on_the_screen_and_places_in_the_text_agree() {
    let text = "abcdef\nñb";
    for (place, _) in text.char_indices() {
        let (row, col) = cursor_visual_position(text, place, 4);
        assert_eq!(cursor_from_visual_position(text, row, col, 4), place);
    }
    assert_eq!(cursor_visual_position(text, 5, 4), (1, 1));
    assert_eq!(config_editor_wrap_rows(0, 4), 1);
    assert_eq!(config_editor_wrap_rows(9, 4), 3);
    assert_eq!((config_editor_line_start(text, 9), config_editor_line_end(text, 2)), (7, 6));
    assert_eq!(project_editor_line_at(text, 9), 1);
    assert_eq!((prev_char_boundary(text, 9), next_char_boundary(text, 7)), (7, 9));
    assert_eq!(byte_index_for_char_column("ñb", 1), 2);
    let (shown, caret) = expand_tabs_for_editor_view("a\tb", 2, 4);
    assert_eq!((shown.as_str(), caret), ("a   b", 4));
}

#[test]
fn tabs_reach_to_the_next_stop_of_their_line() {
    let text = "\tñ\tb\nabcd\te";
    let (shown, caret) = expand_tabs_for_editor_view(text, 4, 4);
    assert_eq!(shown, "    ñ   b\nabcd    e");
    assert!(!shown.contains('\t'));
    assert_eq!(&shown[..caret], expand_tabs_for_editor_view(&text[..4], 4, 4).0);
    assert_eq!(expand_tabs_for_editor_view("ab\nñ", 3, 4), ("ab\nñ".to_owned(), 3));
}

#[test]
fn words_are_jumped_over() {
    let text = "one two-three";
    assert_eq!(next_word_boundary(text, 0), 4);
    assert_eq!(prev_word_boundary(text, 4), 0);
    assert_eq!(char_class('é'), CharClass::Word);
    assert_eq!(char_class('\u{2003}'), CharClass::Space);
    assert_eq!(char_class('-'), CharClass::Other);
    assert_eq!(char_classes(&vec!['a', ' ']), [CharClass::Word, CharClass::Space]);
    assert_eq!((to_ascii_lower('A'), to_ascii_lower('É')), ('a', 'É'));
}

#[test]
fn fields_take_typed_characters() {
    assert_eq!(text_input_char('/', KeyModifiers::shift()), '?');
    assert_eq!(text_input_char('/', KeyModifiers::none()), '/');
    let mut text = "a b".to_owned();
    let mut cursor = 3;
    assert!(edit_field(&mut text, &mut cursor, key(KeyCode::Char('ç'))));
    assert_eq!((text.as_str(), cursor), ("a bç", 5));
    assert!(edit_field(&mut text, &mut cursor, key(KeyCode::Backspace)));
    assert_eq!((text.as_str(), cursor), ("a b", 3));
}

#[test]
fn texts_are_put_together() {
    assert_eq!(trim("\u{2003} a b\n"), "a b");
    assert_eq!(join(&vec!["a".into(), "b".into()], ", "), "a, b");
    assert_eq!((to_decimal(0), to_decimal(u64::MAX)), ("0".into(), u64::MAX.to_string()));
    assert_eq!(to_signed_decimal(i32::MIN), "-2147483648");
}

fn paper(id: &str, title: &str) -> RemotePaper {
    RemotePaper {
        id: id.into(),
        title: title.into(),
        authors: vec!["Émile Borel".into()],
        abstract_text: String::new(),
        published: 0,
        updated: 0,
        categories: vec![],
        pdf_url: None,
        doi: None,
        journal_ref: None,
    }
}

#[test]
fn white_space_is_trimmed() {
    let spaces: Vec<u32> = (0..=0x10_ffff_u32)
        .filter(|n| char::from_u32(*n).is_some_and(|c| char_class(c) == CharClass::Space))
        .collect();
    assert_eq!(spaces.len(), 25);
    assert_eq!(spaces[..8], [9, 10, 11, 12, 13, 0x20, 0x85, 0xa0]);
    assert_eq!(spaces[8..10], [0x1680, 0x2000]);
    assert_eq!(spaces[19..], [0x200a, 0x2028, 0x2029, 0x202f, 0x205f, 0x3000]);
    assert_eq!(trim("\u{2003} a b\u{a0}\n"), "a b");
    assert_eq!(trim("\u{200b}a"), "\u{200b}a");
}

#[test]
fn searches_ignore_the_case_of_letters() {
    assert!(query_matches("ÉTÉ", "un été", ""));
    assert!(!query_matches("hiver", "un été", ""));
    assert_eq!(filtered_results(&vec![paper("1", "A"), paper("2", "B")], "ÉMILE"), [true, true]);
    assert_eq!(filtered_results(&vec![paper("1", "Xy"), paper("2", "Zz")], "xy"), [true, false]);
    assert_eq!(page_title(Page::ReadingQueue), "Reading Queue");
}

#[test]
fn the_rank_of_a_paper_is_a_digest() {
    let hex: String =
    daily_paper_rank("2026-01-01", "", "x").iter().map(|byte| format!("{byte:02x}")).collect();
    assert_eq!(hex, "fb491dea5fb8c259bc28a8496512f5908a3b03fb25c49dea326b9fedc4d59f31");
    assert_eq!(dashboard_keyword_signature(&vec!["a".into(), "b".into()]), "balanced-v3:a,b");
}

#[test]
fn keywords_share_the_feed() {
    assert_eq!(keyword_terms("Quantum-Gravity 2é"), ["quantum", "gravity", "2é"]);
    let terms = vec!["quantum".to_owned(), "gravity".to_owned()];
    assert_eq!(title_match_strength("On QUANTUM fields", &terms), 1);
    let weights = keyword_priority_weights(&vec![3, 3, 3]);
    assert!(weights[0] > weights[1] && weights[1] > weights[2]);
    let targets = keyword_representation_targets(&vec![9, 0, 9, 9], &vec![1, 2, 3, 4], 10);
    assert_eq!(targets.iter().sum::<usize>(), 10);
    assert_eq!(targets[1], 0);
    let few = keyword_representation_targets(&vec![9, 9, 9], &vec![1, 2, 3], 2);
    assert_eq!(few.iter().sum::<usize>(), 2);
}

fn feed(date: &str) -> DashboardFeedKey {
    DashboardFeedKey { feed_date: date.into(), keyword_signature: "s".into() }
}

#[test]
fn feeds_of_other_days_are_not_shown() {
    let mut app = App::default();
    let wanted = feed("2026-01-02");
    assert!(refresh_dashboard_papers(&mut app.today, None, &wanted, &None));
    assert!(!refresh_dashboard_papers(&mut app.today, None, &wanted, &Some(feed("2026-01-02"))));
    let old = feed("2026-01-01");
    assert!(!apply_today_response(&mut app.today, &wanted, &old, Ok(vec![paper("1", "T")])));
    assert!(app.today.papers.is_empty());
    assert!(apply_today_response(&mut app.today, &wanted, &feed("2026-01-02"), Err("down".into())));
    assert!(matches!(&app.today.status, DiscoveryStatus::Error(error) if error == "down"));
    assert!(!refresh_dashboard_papers(&mut app.today, Some(vec![paper("1", "T")]), &wanted, &None));
    assert_eq!(app.today.papers.len(), 1);
}

#[test]
fn the_latest_papers_come_in_the_order_of_the_day() {
    let papers: Vec<RemotePaper> = (0..15).map(|i| paper(&i.to_string(), "T")).collect();
    let shown = latest_feed(papers, "2026-01-01");
    assert_eq!(shown.len(), 10);
    let ranks: Vec<Vec<u8>> =
    shown.iter().map(|paper| daily_paper_rank("2026-01-01", "", &paper.id)).collect();
    assert!(ranks.windows(2).all(|pair| pair[0] <= pair[1]));
    assert!(gather_buckets(vec![None], Some("down".into())).is_err());
    let bucket = Bucket { keyword: "k".into(), papers: vec![] };
    assert_eq!(gather_buckets(vec![None, Some(bucket)], Some("down".into())).unwrap().len(), 1);
}

#[test]
fn tabs_of_the_settings_follow_each_other_round() {
    let mut tab = SettingsTab::Theme;
    for _ in 0..4 {
        assert_eq!(tab.next().prev(), tab);
        tab = tab.next();
    }
    assert_eq!(tab, SettingsTab::Theme);
    assert_eq!(list_scroll(7, 0, 5), 3);
    assert_eq!(list_scroll(1, 3, 5), 1);
    assert_eq!(list_scroll(4, 3, 5), 3);
    assert_eq!(page_from_config("library"), Some(Page::Library));
    assert_eq!(page_from_config("nowhere"), None);
    assert!(startup_page_options().len() > 1);
    assert!(!startup_line(0).is_empty());
    assert!(!theme_label(0, &SettingsModalState::default()).is_empty());
    let entries = vec![PathEntryState::new("abcdef".into()), PathEntryState::new(String::new())];
    assert_eq!(entries[0].cursor, 6);
    assert_eq!(entry_layout(&entries, 20, 10).len(), 2);
}

#[test]
fn keywords_of_the_configuration_are_parted_by_commas() {
    let config = Config {
        theme: "nord".into(),
        startup_page: "library".into(),
        pdf_viewer: None,
        library_folders: vec![],
        download_path: None,
        projects_directory: None,
        dashboard_keywords: " a b, ,c ".into(),
        enabled_plugins: vec![],
    };
    assert_eq!(config.dashboard_keyword_list(), ["a b", "c"]);
}

#[test]
fn applying_the_settings_is_told() {
    let mut app = App::default();
    app.content_focused = true;
    let mut modal = SettingsModalState::default();
    let mut editor = ConfigEditor {
        text: String::new(),
        cursor: 0,
        scroll: 0,
        wrap_width: 80,
        viewport_height: 10,
        goal_column: None,
        insert_mode: false,
        command: None,
        error: None,
        history: vec![String::new()],
        history_idx: 0,
        focused: false,
    };
    let failed = ApplyOutcome::WriteFailed("full".into());
    assert!(!settings_applied(&mut app, &mut modal, &mut editor, failed));
    assert_eq!(app.toast.as_deref(), Some("Write failed: full"));
    let unwritable = ApplyOutcome::Unwritable("x".into());
    assert!(!settings_applied(&mut app, &mut modal, &mut editor, unwritable));
    assert_eq!(app.toast.as_deref(), Some("Serialization failed: x"));
    let half = ApplyOutcome::Written { text: "t".into(), theme: "nord".into(), applied: Err("y".into()) };
    assert!(!settings_applied(&mut app, &mut modal, &mut editor, half));
    assert_eq!(app.toast.as_deref(), Some("Apply failed: y"));
    let done = ApplyOutcome::Written { text: "t".into(), theme: "nord".into(), applied: Ok(()) };
    assert!(settings_applied(&mut app, &mut modal, &mut editor, done));
    assert_eq!(app.toast.as_deref(), Some("Settings saved and applied."));
    assert_eq!((modal.original_theme.as_str(), editor.text.as_str()), ("nord", "t"));
    return_to_sidebar(&mut app, &mut modal);
    assert!(!app.content_focused);
}
