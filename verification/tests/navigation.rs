//! Keys in the sections and the windows over them.

use papr::action::{PaperTarget, UiAction};
use papr::effect::KeyEffect;
use papr::enrichment::merge_enriched_remote_paper;
use papr::input::handle_key;
use papr::keys::{KeyCode, KeyEvent, KeyModifiers};
use papr::modals::handle_paper_detail_key;
use papr::model::{
    App, AppMode, AuthorSummary, BookmarkSummary, CollectionSummary, Command, DiscoveryStatus,
    DownloadStatus, DownloadTask, LibraryPaper, OpenSearches, Page, PaperNote, RemotePaper,
};
use papr::rows::filtered_palette_items;
use papr::settings_modal::{
    handle_settings_key, open_first_page, SettingsKeyResult, SettingsModalState,
};

fn nothing(effect: &KeyEffect) -> bool {
    matches!(effect, KeyEffect::Nothing)
}

fn every_page() -> Vec<Page> {
    (0..14).filter_map(Page::at).collect()
}

fn remote_paper(id: &str, title: &str) -> RemotePaper {
    RemotePaper {
        id: id.into(),
        title: title.into(),
        authors: vec!["Researcher".into()],
        abstract_text: String::new(),
        published: 1_767_225_600,
        updated: 1_767_225_600,
        categories: vec!["cs.DL".into()],
        pdf_url: None,
        doi: None,
        journal_ref: None,
    }
}

#[test]
fn enrichment_projection_keeps_the_displayed_abstract_when_provider_has_none() {
    let mut displayed = remote_paper("https://arxiv.org/abs/2602.00004", "Original title");
    displayed.abstract_text = "Abstract fetched from arXiv.".into();
    let mut provider = displayed.copy();
    provider.title = "Enriched title".into();
    provider.abstract_text = "  ".into();

    let merged = merge_enriched_remote_paper(&displayed, &provider);

    assert_eq!(merged.title, "Enriched title");
    assert_eq!(merged.abstract_text, "Abstract fetched from arXiv.");
}

#[test]
fn control_b_opens_browse_papr() {
    let mut app = App::default();
    let _ = handle_key(
        &mut app,
        KeyEvent::new(KeyCode::Char('b'), KeyModifiers::control()),
    );
    assert_eq!(app.mode, AppMode::CommandPalette);
}

#[test]
fn test_settings_workspace_ctrl_b_transfers_focus_to_command_palette() {
    let mut app = {
        let mut made = App::default();
        made.page = Page::Settings;
        made.content_focused = true;
        made.mode = AppMode::Normal;
        made
    };

    // Press Ctrl+B while in settings workspace
    let res = handle_settings_key(
        &mut app,
        &mut SettingsModalState::default(),
        KeyEvent::new(KeyCode::Char('b'), KeyModifiers::control()),
    );
    assert!(matches!(res, SettingsKeyResult::Handled));
    assert_eq!(app.mode, AppMode::CommandPalette);

    // When app.mode == AppMode::CommandPalette, event loop condition
    // (app.page == Page::Settings && app.content_focused && app.mode == AppMode::Normal) is false.
    assert!(!(app.page == Page::Settings && app.content_focused && app.mode == AppMode::Normal));

    // Subsequent keys go to handle_key for CommandPalette
    let _ = handle_key(
        &mut app,
        KeyEvent::new(KeyCode::Char('d'), KeyModifiers::none()),
    );
    assert_eq!(app.palette.query, "d");

    // Esc closes CommandPalette and restores normal focus in Settings workspace
    let _ = handle_key(
        &mut app,
        KeyEvent::new(KeyCode::Esc, KeyModifiers::none()),
    );
    assert_eq!(app.mode, AppMode::Normal);
    assert_eq!(app.page, Page::Settings);
    assert!(app.content_focused);
}

#[test]
fn test_settings_workspace_question_mark_transfers_focus_to_help() {
    let mut app = {
        let mut made = App::default();
        made.page = Page::Settings;
        made.content_focused = true;
        made.mode = AppMode::Normal;
        made
    };

    // Press '?' while in settings workspace
    let res = handle_settings_key(
        &mut app,
        &mut SettingsModalState::default(),
        KeyEvent::new(KeyCode::Char('?'), KeyModifiers::none()),
    );
    assert!(matches!(res, SettingsKeyResult::Handled));
    assert_eq!(app.mode, AppMode::Help);

    // While app.mode == AppMode::Help, key routing condition for settings workspace is false
    assert!(!(app.page == Page::Settings && app.content_focused && app.mode == AppMode::Normal));

    // Subsequent keys go to handle_key for Help mode (scrolling)
    let _ = handle_key(
        &mut app,
        KeyEvent::new(KeyCode::Down, KeyModifiers::none()),
    );
    assert_eq!(app.help_scroll, 1);

    // Pressing '?' or Esc closes Help mode and restores normal focus in Settings workspace
    let _ = handle_key(
        &mut app,
        KeyEvent::new(KeyCode::Char('?'), KeyModifiers::none()),
    );
    assert_eq!(app.mode, AppMode::Normal);
    assert_eq!(app.page, Page::Settings);
    assert!(app.content_focused);
}

#[test]
fn test_startup_page_config_initializes_app_page_and_sidebar_index() {
    let startup_page = "reading_queue";

    let mut app = App::default();
    open_first_page(&mut app, startup_page);

    assert_eq!(app.page, Page::ReadingQueue);
    assert_eq!(app.sidebar_index, 3);
}

#[test]
fn palette_navigates_options() {
    let mut app = {
        let mut made = App::default();
        made.mode = AppMode::CommandPalette;
        made
    };
    let _ = handle_key(
        &mut app,
        KeyEvent::new(KeyCode::Down, KeyModifiers::none()),
    );
    let _ = handle_key(
        &mut app,
        KeyEvent::new(KeyCode::Down, KeyModifiers::none()),
    );
    assert_eq!(app.palette.selected, 2);
}

#[test]
fn palette_filtering_and_typing() {
    let mut app = {
        let mut made = App::default();
        made.mode = AppMode::CommandPalette;
        made
    };

    // Type 'l' to filter (should match Library, etc.)
    let _ = handle_key(
        &mut app,
        KeyEvent::new(KeyCode::Char('l'), KeyModifiers::none()),
    );
    assert_eq!(app.palette.query, "l");
    let items = filtered_palette_items(&app.palette.query);
    assert!(items[Page::Library.index()]);

    // Down arrow should move selection
    let _ = handle_key(
        &mut app,
        KeyEvent::new(KeyCode::Down, KeyModifiers::none()),
    );
    // Press Enter to activate
    let action = handle_key(
        &mut app,
        KeyEvent::new(KeyCode::Enter, KeyModifiers::none()),
    );
    assert!(nothing(&action));
    assert_eq!(app.mode, AppMode::Normal);
}

#[test]
fn slash_opens_discovery_search() {
    let mut app = App::default();
    let action = handle_key(
        &mut app,
        KeyEvent::new(KeyCode::Char('/'), KeyModifiers::none()),
    );
    assert!(nothing(&action));
    assert_eq!(app.mode, AppMode::Search);
    assert_eq!(app.page, Page::Discover);
}

#[test]
fn dashboard_navigation_opens_the_selected_paper() {
    let first = remote_paper("https://arxiv.org/abs/1", "First paper");
    let second = remote_paper("https://arxiv.org/abs/2", "Selected paper");
    let mut app = {
        let mut made = App::default();
        made.page = Page::Dashboard;
        made.content_focused = true;
        made.today.papers = vec![first, second];
        made.today.selected = 1;
        made
    };

    let action = handle_key(&mut app, KeyEvent::new(KeyCode::Enter, KeyModifiers::none()));
    assert!(matches!(
        action,
        KeyEffect::Act(UiAction::OpenPaper(paper)) if paper.title == "Selected paper"
    ));
}

#[test]
fn remote_workspace_detail_ignores_bookmark_note_tag_and_group_keys() {
    for page in [Page::Dashboard, Page::Discover] {
        let mut app = {
            let mut made = App::default();
            made.page = page;
            made.content_focused = true;
            made.mode = AppMode::PaperDetail;
            made.today.papers = vec![remote_paper("https://arxiv.org/abs/dashboard", "Dashboard paper")];
            made.discovery.results = vec![remote_paper("https://arxiv.org/abs/discover", "Discover paper")];
            made
        };

        for key in ['B', 'n', 't', 'g'] {
            let action = handle_key(
                &mut app,
                KeyEvent::new(KeyCode::Char(key), KeyModifiers::none()),
            );
            assert!(nothing(&action), "{key} should be ignored in {page:?}");
            assert_eq!(app.mode, AppMode::PaperDetail);
        }
    }
}

#[test]
fn enter_and_right_open_every_navigation_section() {
    for (index, page) in every_page().into_iter().enumerate() {
        for key in [KeyCode::Enter, KeyCode::Right] {
            let mut app = {
                let mut made = App::default();
                made.sidebar_index = index;
                made
            };
            let action = handle_key(&mut app, KeyEvent::new(key, KeyModifiers::none()));
            assert!(nothing(&action));
            assert_eq!(app.page, page);
            assert!(app.content_focused);
        }
    }
}

#[test]
fn left_returns_to_navigation_without_changing_selection() {
    for (index, page) in every_page()
        .into_iter()
        .enumerate()
        .filter(|(_, page)| *page != Page::Projects)
    {
        let mut app = {
            let mut made = App::default();
            made.page = page;
            made.sidebar_index = index;
            made.content_focused = true;
            made
        };
        let action = handle_key(&mut app, KeyEvent::new(KeyCode::Left, KeyModifiers::none()));
        assert!(nothing(&action));
        assert_eq!(app.page, page);
        assert_eq!(app.sidebar_index, index);
        assert!(!app.content_focused);
    }
}

#[test]
fn test_workspace_search_navigation_and_restore() {
    for page in [
        Page::Library,
        Page::Downloads,
        Page::Collections,
        Page::Authors,
        Page::Bookmarks,
        Page::Notes,
        Page::ReadingQueue,
    ] {
        let mut app = {
            let mut made = App::default();
            made.page = page;
            made.content_focused = true;
            made.mode = AppMode::WorkspaceSearch;
            made.search.query = "test query".to_string();
            made.search.query_cursor = 10;
            made.search.active = {
                let mut s = OpenSearches::none();
                s.set(page, true);
                s
            };
            made
        };

        // Pressing Left Arrow in WorkspaceSearch mode when cursor > 0 should move cursor left
        let action = handle_key(&mut app, KeyEvent::new(KeyCode::Left, KeyModifiers::none()));
        assert!(nothing(&action));
        assert!(app.content_focused);
        assert_eq!(app.mode, AppMode::WorkspaceSearch);
        assert_eq!(app.search.query_cursor, 9);

        // Pressing Left Arrow when cursor == 0 should transfer focus to navigation pane
        app.search.query_cursor = 0;
        let action = handle_key(&mut app, KeyEvent::new(KeyCode::Left, KeyModifiers::none()));
        assert!(nothing(&action));
        assert!(!app.content_focused);
        assert_eq!(app.mode, AppMode::Normal);
        assert_eq!(app.search.query, "test query");
        assert!(app.search.active.contains(page));

        // Move to another page
        app.sidebar_index = 0; // Dashboard
        app.page = Page::Dashboard;

        // Enter Dashboard - should not restore search mode since it's not active
        app.dispatch(Command::Open);
        assert!(app.content_focused);
        assert_eq!(app.mode, AppMode::Normal);

        // Go back to sidebar, select original page, and enter it
        app.content_focused = false;
        app.sidebar_index = page.index();
        app.dispatch(Command::Open);

        // It should enter the workspace and restore search mode and its state!
        assert!(app.content_focused);
        assert_eq!(app.mode, AppMode::WorkspaceSearch);
        assert_eq!(app.search.query, "test query");
        assert_eq!(app.search.query_cursor, 0);
    }
}

#[test]
fn test_discover_search_navigation() {
    let mut app = {
        let mut made = App::default();
        made.page = Page::Discover;
        made.content_focused = true;
        made.mode = AppMode::Search;
        made.discovery.query = "test query".to_string();
        made.discovery.query_cursor = 10;
        made
    };

    // Pressing Left Arrow when cursor > 0 should move cursor left
    let action = handle_key(&mut app, KeyEvent::new(KeyCode::Left, KeyModifiers::none()));
    assert!(nothing(&action));
    assert!(app.content_focused);
    assert_eq!(app.mode, AppMode::Search);
    assert_eq!(app.discovery.query_cursor, 9);

    // Pressing Left Arrow when cursor == 0 should transfer focus to navigation pane
    app.discovery.query_cursor = 0;
    let action = handle_key(&mut app, KeyEvent::new(KeyCode::Left, KeyModifiers::none()));
    assert!(nothing(&action));
    assert!(!app.content_focused);
    assert_eq!(app.mode, AppMode::Normal);
}

#[test]
fn discover_results_left_returns_to_navigation_and_preserves_state() {
    for from_filter in [false, true] {
        let mut app = {
            let mut made = App::default();
            made.page = Page::Discover;
            made.sidebar_index = Page::Discover.index();
            made.content_focused = true;
            made.mode = if from_filter { AppMode::DiscoverFilter } else { AppMode::Search };
            made.discovery.query = "quantum search".into();
            made.discovery.query_cursor = 14;
            made.discovery.filter = "paper".into();
            made.discovery.filter_cursor = 5;
            made
        };
        app.discovery.set_results(vec![
            remote_paper("first", "First paper"),
            remote_paper("second", "Second paper"),
        ]);
        app.discovery.filter = "paper".into();
        app.discovery.filter_cursor = app.discovery.filter.len();
        app.discovery.rebuild_filter();

        // Both inputs move into the same results pane.
        assert!(nothing(&handle_key(&mut app, KeyEvent::new(KeyCode::Down, KeyModifiers::none()))));
        assert_eq!(app.mode, AppMode::Normal);
        assert_eq!(app.discovery.selected, 0);
        app.discovery.scroll = 1;

        // Left leaves the results pane for navigation without entering either input.
        assert!(nothing(&handle_key(&mut app, KeyEvent::new(KeyCode::Left, KeyModifiers::none()))));
        assert!(!app.content_focused);
        assert_eq!(app.mode, AppMode::Normal);
        assert_eq!(app.discovery.query, "quantum search");
        assert_eq!(app.discovery.filter, "paper");
        assert_eq!(app.discovery.selected, 0);
        assert_eq!(app.discovery.scroll, 1);

        // Leaving Discover and returning restores the existing results-pane state.
        app.dispatch(Command::MoveDown);
        app.dispatch(Command::MoveUp);
        app.dispatch(Command::Open);
        assert!(app.content_focused);
        assert_eq!(app.page, Page::Discover);
        assert_eq!(app.mode, AppMode::Normal);
        assert_eq!(app.discovery.query, "quantum search");
        assert_eq!(app.discovery.filter, "paper");
        assert_eq!(app.discovery.selected, 0);
        assert_eq!(app.discovery.scroll, 1);
    }
}

#[test]
fn discover_control_arrows_switch_cached_result_pages() {
    let mut app = {
        let mut made = App::default();
        made.page = Page::Discover;
        made.content_focused = true;
        made
    };
    app.discovery.set_results(
        (0..51)
            .map(|index| {
                remote_paper(
                    &format!("https://arxiv.org/abs/{index}"),
                    &format!("Paper {index}"),
                )
            })
            .collect(),
    );

    assert!(nothing(&handle_key(&mut app, KeyEvent::new(KeyCode::Right, KeyModifiers::control()))));
    assert_eq!(app.discovery.page, 1);
    assert_eq!(app.discovery.selected_paper().unwrap().title, "Paper 50");
    assert!(nothing(&handle_key(&mut app, KeyEvent::new(KeyCode::Left, KeyModifiers::control()))));
    assert_eq!(app.discovery.page, 0);
    assert_eq!(app.discovery.selected_paper().unwrap().title, "Paper 0");
}

#[test]
fn test_workspace_search_greater_than_and_arrow_keys() {
    for page in [
        Page::Library,
        Page::Downloads,
        Page::Collections,
        Page::Authors,
        Page::Bookmarks,
        Page::Notes,
        Page::ReadingQueue,
    ] {
        let mut app = {
            let mut made = App::default();
            made.page = page;
            made.content_focused = true;
            made.mode = AppMode::Normal;
            made.search.query = "some query".to_string();
            made.search.query_cursor = 10;
            made.library.selected = 5;
            made.downloads.selected = 5;
            made.collections.selected = 5;
            made.collections.paper_selected = 5;
            made.authors.selected = 5;
            made.authors.paper_selected = 5;
            made.bookmarks.selected = 5;
            made.notes.selected = 5;
            made.queue.selected = 5;
            made
        };
        app.collections.active = Some(CollectionSummary {
            id: 1,
            name: "Collection".into(),
            paper_count: 5,
            folder_path: None,
        });
        app.authors.active = Some(AuthorSummary {
            id: 2,
            name: "Author".into(),
            paper_count: 5,
        });

        // 1. When workspace has focus, pressing '>' should return focus to search bar
        let action = handle_key(&mut app, KeyEvent::new(KeyCode::Char('>'), KeyModifiers::none()));
        assert!(nothing(&action));
        assert!(app.content_focused);
        assert_eq!(app.mode, AppMode::WorkspaceSearch);
        assert!(app.search.active.contains(page));

        // 2. Pressing '>' again in search mode should return focus to workspace
        let action = handle_key(&mut app, KeyEvent::new(KeyCode::Char('>'), KeyModifiers::none()));
        assert!(nothing(&action));
        assert!(app.content_focused);
        assert_eq!(app.mode, AppMode::Normal);
        assert_eq!(app.search.query, "some query");
        assert!(!app.search.active.contains(page));

        // 3. Enter search mode again and test Down Arrow
        handle_key(&mut app, KeyEvent::new(KeyCode::Char('>'), KeyModifiers::none()));
        assert_eq!(app.mode, AppMode::WorkspaceSearch);

        // Pressing Down Arrow should move focus to first visible paper in filtered list (index 0)
        let action = handle_key(&mut app, KeyEvent::new(KeyCode::Down, KeyModifiers::none()));
        assert!(nothing(&action));
        assert!(app.content_focused);
        assert_eq!(app.mode, AppMode::Normal);
        assert!(!app.search.active.contains(page));

        match page {
            Page::Library => assert_eq!(app.library.selected, 0),
            Page::Downloads => assert_eq!(app.downloads.selected, 0),
            Page::Collections => assert_eq!(app.collections.paper_selected, 0),
            Page::Authors => assert_eq!(app.authors.paper_selected, 0),
            Page::Bookmarks => assert_eq!(app.bookmarks.selected, 0),
            Page::Notes => assert_eq!(app.notes.selected, 0),
            Page::ReadingQueue => assert_eq!(app.queue.selected, 0),
            _ => {}
        }

        // 4. Enter search mode and test Esc
        handle_key(&mut app, KeyEvent::new(KeyCode::Char('>'), KeyModifiers::none()));
        assert_eq!(app.mode, AppMode::WorkspaceSearch);

        let action = handle_key(&mut app, KeyEvent::new(KeyCode::Esc, KeyModifiers::none()));
        assert!(nothing(&action));
        assert!(app.content_focused);
        assert_eq!(app.mode, AppMode::Normal);
        assert_eq!(app.search.query, "some query");
        assert!(!app.search.active.contains(page));
    }
}

#[test]
fn arrow_and_vim_panel_navigation_preserve_the_same_selection() {
    for (back, open) in [
        (KeyCode::Char('h'), KeyCode::Char('l')),
        (KeyCode::Left, KeyCode::Right),
    ] {
        let mut app = {
            let mut made = App::default();
            made.page = Page::Library;
            made.sidebar_index = 2;
            made.content_focused = true;
            made.library.selected = 7;
            made
        };
        let _ = handle_key(&mut app, KeyEvent::new(back, KeyModifiers::none()));
        assert!(!app.content_focused);
        assert_eq!(app.sidebar_index, 2);
        assert_eq!(app.library.selected, 7);

        let _ = handle_key(&mut app, KeyEvent::new(open, KeyModifiers::none()));
        assert!(app.content_focused);
        assert_eq!(app.page, Page::Library);
        assert_eq!(app.sidebar_index, 2);
        assert_eq!(app.library.selected, 7);
    }
}

#[test]
fn left_and_h_preserve_the_nested_collection_cursor() {
    for back in [KeyCode::Char('h'), KeyCode::Left] {
        let mut app = {
            let mut made = App::default();
            made.page = Page::Collections;
            made.sidebar_index = 4;
            made.content_focused = true;
            made.collections.selected = 3;
            made.collections.active = Some(CollectionSummary {
                id: 9,
                name: "Selected collection".into(),
                paper_count: 2,
                folder_path: Some("/tmp/Selected collection".into()),
            });
            made.collections.paper_selected = 1;
            made.collections.last_opened = Some(9);
            made
        };
        let action = handle_key(&mut app, KeyEvent::new(back, KeyModifiers::none()));
        assert!(nothing(&action));
        assert!(app.collections.active.is_none());
        assert_eq!(app.collections.selected, 3);
        assert_eq!(app.collections.paper_selected, 1);
        assert_eq!(app.collections.last_opened, Some(9));
        assert!(app.content_focused);
    }
}

#[test]
fn ctrl_t_opens_the_terminal_command_palette() {
    let mut app = App::default();

    let _ = handle_key(
        &mut app,
        KeyEvent::new(KeyCode::Char('t'), KeyModifiers::control()),
    );

    assert_eq!(app.mode, AppMode::TerminalCommand);
    assert!(app.terminal.command.is_empty());
    assert!(app.terminal.output.is_empty());
}

#[test]
fn help_opens_without_navigating_from_dashboard_or_discover() {
    let mut dashboard = {
        let mut made = App::default();
        made.page = Page::Dashboard;
        made.content_focused = false;
        made.sidebar_index = 0;
        made
    };
    let _ = handle_key(
        &mut dashboard,
        KeyEvent::new(KeyCode::Char('?'), KeyModifiers::none()),
    );
    assert_eq!(dashboard.mode, AppMode::Help);
    assert_eq!(dashboard.page, Page::Dashboard);
    assert!(!dashboard.content_focused);
    assert_eq!(dashboard.sidebar_index, 0);

    let mut discover = {
        let mut made = App::default();
        made.page = Page::Discover;
        made.content_focused = true;
        made.sidebar_index = 1;
        made
    };
    discover.discovery.selected = 3;
    let _ = handle_key(
        &mut discover,
        KeyEvent::new(KeyCode::Char('?'), KeyModifiers::none()),
    );
    assert_eq!(discover.mode, AppMode::Help);
    assert_eq!(discover.page, Page::Discover);
    assert_eq!(discover.discovery.selected, 3);
    assert_eq!(discover.sidebar_index, 1);
}

#[test]
fn help_preserves_dashboard_and_discover_paper_detail_views() {
    for page in [Page::Dashboard, Page::Discover] {
        let mut app = {
            let mut made = App::default();
            made.page = page;
            made.content_focused = true;
            made.mode = AppMode::PaperDetail;
            made.paper_detail_scroll = 9;
            made
        };

        let _ = handle_key(
            &mut app,
            KeyEvent::new(KeyCode::Char('?'), KeyModifiers::none()),
        );
        assert_eq!(app.mode, AppMode::Help);
        assert_eq!(app.page, page);
        assert_eq!(app.paper_detail_scroll, 9);

        let _ = handle_key(&mut app, KeyEvent::new(KeyCode::Esc, KeyModifiers::none()));
        assert_eq!(app.mode, AppMode::PaperDetail);
        assert_eq!(app.page, page);
        assert_eq!(app.paper_detail_scroll, 9);
    }
}

#[test]
fn paper_detail_handler_never_routes_help_to_back_navigation() {
    let mut app = {
        let mut made = App::default();
        made.page = Page::Discover;
        made.content_focused = true;
        made.mode = AppMode::PaperDetail;
        made.paper_detail_scroll = 4;
        made.discovery.selected = 2;
        made
    };

    let action = handle_paper_detail_key(
        &mut app,
        KeyEvent::new(KeyCode::Char('?'), KeyModifiers::shift()),
    );
    assert!(action.is_none());
    assert_eq!(app.mode, AppMode::Help);
    assert_eq!(app.help_return_mode, AppMode::PaperDetail);
    assert_eq!(app.paper_detail_scroll, 4);
    assert_eq!(app.discovery.selected, 2);
}

#[test]
fn discover_filter_refines_results_without_starting_a_search() {
    let mut title_match = remote_paper("title", "Genome assembly");
    title_match.authors = vec!["Ada Author".into()];
    let mut author_match = remote_paper("author", "Other paper");
    author_match.authors = vec!["Genome Researcher".into()];
    let mut abstract_match = remote_paper("abstract", "Third genome paper");
    abstract_match.abstract_text = "A genome-scale analysis.".into();
    let mut app = {
        let mut made = App::default();
        made.page = Page::Discover;
        made.content_focused = true;
        made
    };
    app.discovery.set_results(vec![author_match, abstract_match, title_match]);

    let action = handle_key(&mut app, KeyEvent::new(KeyCode::Char('>'), KeyModifiers::none()));
    assert!(nothing(&action));
    assert_eq!(app.mode, AppMode::DiscoverFilter);
    for character in "genome".chars() {
        assert!(nothing(&handle_key(&mut app, KeyEvent::new(KeyCode::Char(character), KeyModifiers::none()))));
    }
    assert_eq!(app.discovery.filtered_result_count(), 3);
    assert_eq!(app.discovery.selected_paper().map(|paper| paper.id.as_str()), Some("author"));

    let _ = handle_key(&mut app, KeyEvent::new(KeyCode::Esc, KeyModifiers::none()));
    assert_eq!(app.mode, AppMode::Normal);
    assert_eq!(app.discovery.filter, "genome");
    let _ = handle_key(&mut app, KeyEvent::new(KeyCode::Char('>'), KeyModifiers::none()));
    assert_eq!(app.mode, AppMode::DiscoverFilter);
    for _ in 0.."genome".len() {
        let _ = handle_key(&mut app, KeyEvent::new(KeyCode::Backspace, KeyModifiers::none()));
    }
    assert!(app.discovery.filter.is_empty());
    assert_eq!(app.discovery.filtered_result_count(), 3);
}

#[test]
fn unread_keybind_targets_selected_paper_across_workspaces() {
    let library_paper = LibraryPaper {
        id: 11,
        title: "Library Paper".into(),
        authors: "Researcher".into(),
        doi: None,
        arxiv_id: None,
        pdf_path: Some("/tmp/library.pdf".into()),
        file_size: Some(1),
        reading_status: "read".into(),
        is_favorite: false,
    };

    let mut library_app = {
        let mut made = App::default();
        made.page = Page::Library;
        made.content_focused = true;
        made.library.papers = vec![library_paper.copy()];
        made.library.selected = 0;
        made
    };
    assert!(matches!(
        handle_key(&mut library_app, KeyEvent::new(KeyCode::Char('u'), KeyModifiers::none())),
        KeyEffect::Act(UiAction::MarkUnread(11))
    ));

    let mut downloads_app = {
        let mut made = App::default();
        made.page = Page::Downloads;
        made.content_focused = true;
        made.library.papers = vec![library_paper.copy()];
        made.downloads.tasks = vec![DownloadTask {
            id: "paper".into(),
            title: "Paper".into(),
            downloaded: 10,
            total: Some(10),
            paper_id: Some(11),
            pdf_path: Some("/tmp/library.pdf".into()),
            status: DownloadStatus::Completed,
            remote_paper: None,
            linked_paper: None,
            failed_at: None,
        }];
        made
    };
    assert!(matches!(
        handle_key(
            &mut downloads_app,
            KeyEvent::new(KeyCode::Char('u'), KeyModifiers::none())
        ),
        KeyEffect::Act(UiAction::MarkUnread(11))
    ));

    let mut collections_app = {
        let mut made = App::default();
        made.page = Page::Collections;
        made.content_focused = true;
        made.collections.active = Some(CollectionSummary {
            id: 1,
            name: "Collection".into(),
            paper_count: 1,
            folder_path: None,
        });
        made.collections.papers = vec![library_paper.copy()];
        made
    };
    assert!(matches!(
        handle_key(
            &mut collections_app,
            KeyEvent::new(KeyCode::Char('u'), KeyModifiers::none())
        ),
        KeyEffect::Act(UiAction::MarkUnread(11))
    ));

    let mut bookmarks_app = {
        let mut made = App::default();
        made.page = Page::Bookmarks;
        made.content_focused = true;
        made.bookmarks.items = vec![BookmarkSummary {
            id: 1,
            paper_id: 11,
            paper_title: "Bookmarked".into(),
            authors: "Researcher".into(),
            year: None,
            journal: None,
            doi: None,
            pdf_path: "/tmp/library.pdf".into(),
            page: None,
            label: None,
        }];
        made
    };
    assert!(matches!(
        handle_key(
            &mut bookmarks_app,
            KeyEvent::new(KeyCode::Char('u'), KeyModifiers::none())
        ),
        KeyEffect::Act(UiAction::MarkUnread(11))
    ));

    let mut authors_app = {
        let mut made = App::default();
        made.page = Page::Authors;
        made.content_focused = true;
        made.authors.active = Some(AuthorSummary {
            id: 3,
            name: "Researcher".into(),
            paper_count: 1,
        });
        made.authors.papers = vec![library_paper.copy()];
        made
    };
    assert!(matches!(
        handle_key(
            &mut authors_app,
            KeyEvent::new(KeyCode::Char('u'), KeyModifiers::none())
        ),
        KeyEffect::Act(UiAction::MarkUnread(11))
    ));

    let mut notes_app = {
        let mut made = App::default();
        made.page = Page::Notes;
        made.content_focused = true;
        made.notes.papers = vec![library_paper];
        made
    };
    assert!(matches!(
        handle_key(&mut notes_app, KeyEvent::new(KeyCode::Char('u'), KeyModifiers::none())),
        KeyEffect::Act(UiAction::MarkUnread(11))
    ));
}

#[test]
fn browser_shortcut_uses_selected_dashboard_and_search_urls() {
    let dashboard_paper = remote_paper("https://arxiv.org/abs/dashboard", "Dashboard");
    let search_paper = remote_paper("https://arxiv.org/abs/search", "Search");
    let mut app = {
        let mut made = App::default();
        made.page = Page::Dashboard;
        made.content_focused = true;
        made.today.papers = vec![dashboard_paper];
        made
    };
    let dashboard = handle_key(
        &mut app,
        KeyEvent::new(KeyCode::Char('o'), KeyModifiers::none()),
    );
    assert!(matches!(
        dashboard,
        KeyEffect::Act(UiAction::OpenBrowser(url)) if url.ends_with("/dashboard")
    ));

    app.page = Page::Discover;
    app.discovery.results = vec![search_paper];
    let search = handle_key(
        &mut app,
        KeyEvent::new(KeyCode::Char('o'), KeyModifiers::none()),
    );
    assert!(matches!(
        search,
        KeyEffect::Act(UiAction::OpenBrowser(url)) if url.ends_with("/search")
    ));
}

#[test]
fn dashboard_and_discover_paper_rows_support_citation_and_download_shortcuts() {
    for page in [Page::Dashboard, Page::Discover] {
        let paper = remote_paper("https://arxiv.org/abs/2607.12345", "Paper");
        let mut app = {
            let mut made = App::default();
            made.page = page;
            made.content_focused = true;
            made.today.papers = (page == Page::Dashboard)
                .then_some(paper.copy())
                .into_iter()
                .collect();
            made.discovery.results = (page == Page::Discover).then_some(paper).into_iter().collect();
            made
        };
        assert!(matches!(
            handle_key(&mut app, KeyEvent::new(KeyCode::Char('c'), KeyModifiers::none())),
            KeyEffect::Act(UiAction::CopyCitation(PaperTarget::Remote(_)))
        ));
        assert!(matches!(
            handle_key(&mut app, KeyEvent::new(KeyCode::Char('d'), KeyModifiers::none())),
            KeyEffect::Act(UiAction::Download(_))
        ));
    }
}

#[test]
fn browser_shortcut_opens_local_papers_and_reports_missing_arxiv_metadata() {
    let paper = LibraryPaper {
        id: 42,
        title: "Local paper".into(),
        authors: String::new(),
        doi: None,
        arxiv_id: Some("2607.12345v2".into()),
        pdf_path: Some("/tmp/local.pdf".into()),
        file_size: None,
        reading_status: "unread".into(),
        is_favorite: false,
    };
    let mut app = {
        let mut made = App::default();
        made.page = Page::Library;
        made.content_focused = true;
        made.library.papers = vec![paper.copy()];
        made
    };
    assert!(matches!(
        handle_key(&mut app, KeyEvent::new(KeyCode::Char('o'), KeyModifiers::none())),
        KeyEffect::Act(UiAction::OpenBrowser(url)) if url == "https://arxiv.org/abs/2607.12345v2"
    ));

    app.library.papers[0].arxiv_id = None;
    assert!(nothing(&handle_key(&mut app, KeyEvent::new(KeyCode::Char('o'), KeyModifiers::none()))));
    assert_eq!(
        app.toast.as_deref(),
        Some("No valid arXiv page is available for this paper")
    );
}

#[test]
fn downloaded_remote_paper_opens_from_metadata_without_changing_browser_shortcut() {
    for page in [Page::Dashboard, Page::Discover] {
        let remote = remote_paper("https://arxiv.org/abs/downloaded", "Downloaded paper");
        let mut app = {
            let mut made = App::default();
            made.page = page;
            made.content_focused = true;
            made.mode = AppMode::PaperDetail;
            made.today.papers = (page == Page::Dashboard).then_some(remote.copy()).into_iter().collect();
            made.discovery.results = (page == Page::Discover).then_some(remote).into_iter().collect();
            made.library.papers = vec![LibraryPaper {
                id: 42,
                title: "Downloaded paper".into(),
                authors: String::new(),
                doi: None,
                arxiv_id: Some("https://arxiv.org/abs/downloaded".into()),
                pdf_path: Some("/tmp/downloaded.pdf".into()),
                file_size: None,
                reading_status: "unread".into(),
                is_favorite: false,
            }];
            made
        };

        let open = handle_key(&mut app, KeyEvent::new(KeyCode::Enter, KeyModifiers::none()));
        assert!(matches!(
            open,
            KeyEffect::Act(UiAction::OpenPdf { paper_id: 42, path })
            if path == "/tmp/downloaded.pdf"
        ));

        let browser = handle_key(&mut app, KeyEvent::new(KeyCode::Char('o'), KeyModifiers::none()));
        assert!(matches!(
            browser,
            KeyEffect::Act(UiAction::OpenBrowser(url)) if url.ends_with("/downloaded")
        ));
    }
}

#[test]
fn dashboard_open_keeps_discover_results_independent() {
    let dashboard_paper = remote_paper("https://arxiv.org/abs/dashboard", "Dashboard Paper");
    let discover_paper = remote_paper("https://arxiv.org/abs/discover", "Discover Paper");
    let mut app = {
        let mut made = App::default();
        made.page = Page::Dashboard;
        made.content_focused = true;
        made.today.papers = vec![dashboard_paper];
        made.discovery.query = "search".into();
        made.discovery.query_cursor = 6;
        made.discovery.results = vec![discover_paper];
        made.discovery.selected = 0;
        made.discovery.scroll = 3;
        made.discovery.status = DiscoveryStatus::Ready;
        made.discovery.detail_scroll = 11;
        made
    };

    app.dispatch(Command::Open);

    assert_eq!(app.mode, AppMode::PaperDetail);
    assert_eq!(app.paper_detail_scroll, 0);
    assert_eq!(app.discovery.query, "search");
    assert_eq!(app.discovery.query_cursor, 6);
    assert_eq!(app.discovery.scroll, 3);
    assert_eq!(app.discovery.selected, 0);
    assert_eq!(app.discovery.detail_scroll, 11);
    assert_eq!(app.discovery.results.len(), 1);
    assert_eq!(app.discovery.results[0].title, "Discover Paper");
}

#[test]
fn note_editor_emits_autosave_action() {
    let mut app = {
        let mut made = App::default();
        made.mode = AppMode::NoteEdit;
        made.notes.editor = Some(PaperNote {
            paper_id: 7,
            title: String::new(),
            body: String::new(),
            cursor: 0,
        });
        made
    };
    let action = handle_key(
        &mut app,
        KeyEvent::new(KeyCode::Char('#'), KeyModifiers::none()),
    );
    assert!(matches!(action, KeyEffect::Act(UiAction::SaveNote(_))));
    assert_eq!(
        app.notes.editor.as_ref().map(|note| note.body.as_str()),
        Some("#")
    );
}

#[test]
fn library_enter_opens_selected_pdf() {
    let mut app = {
        let mut made = App::default();
        made.page = Page::Library;
        made.content_focused = true;
        made.library.papers = vec![LibraryPaper {
            id: 7,
            title: "Paper".into(),
            authors: String::new(),
            doi: None,
            arxiv_id: None,
            pdf_path: Some("/tmp/paper.pdf".into()),
            file_size: None,
            reading_status: "unread".into(),
            is_favorite: false,
        }];
        made
    };
    let action = handle_key(&mut app, KeyEvent::new(KeyCode::Enter, KeyModifiers::none()));
    assert!(matches!(
        action,
        KeyEffect::Act(UiAction::OpenPdf { paper_id: 7, path })
        if path == "/tmp/paper.pdf"
    ));
}

#[test]
fn collections_open_then_open_the_selected_paper_pdf() {
    let paper = LibraryPaper {
        id: 9,
        title: "Collected paper".into(),
        authors: String::new(),
        doi: None,
        arxiv_id: None,
        pdf_path: Some("/tmp/collected.pdf".into()),
        file_size: None,
        reading_status: "unread".into(),
        is_favorite: false,
    };
    let mut app = {
        let mut made = App::default();
        made.page = Page::Collections;
        made.content_focused = true;
        made.collections.items = vec![CollectionSummary {
            id: 3,
            name: "Review".into(),
            paper_count: 1,
            folder_path: Some("/tmp/Review".into()),
        }];
        made
    };
    let open_collection =
    handle_key(&mut app, KeyEvent::new(KeyCode::Enter, KeyModifiers::none()));
    assert!(matches!(open_collection, KeyEffect::Act(UiAction::OpenCollection(3))));

    app.collections.active = app.collections.items.first().map(|c| c.copy());
    app.collections.papers.push(paper);
    let open_pdf = handle_key(&mut app, KeyEvent::new(KeyCode::Enter, KeyModifiers::none()));
    assert!(matches!(
        open_pdf,
        KeyEffect::Act(UiAction::OpenPdf { paper_id: 9, path })
        if path == "/tmp/collected.pdf"
    ));
}

#[test]
fn library_and_collection_papers_toggle_bookmarks() {
    let paper = LibraryPaper {
        id: 19,
        title: "Bookmark me".into(),
        authors: "Researcher".into(),
        doi: None,
        arxiv_id: None,
        pdf_path: Some("/tmp/bookmark.pdf".into()),
        file_size: None,
        reading_status: "unread".into(),
        is_favorite: false,
    };
    let mut app = {
        let mut made = App::default();
        made.page = Page::Library;
        made.content_focused = true;
        made.library.papers = vec![paper.copy()];
        made
    };
    let library_action = handle_key(
        &mut app,
        KeyEvent::new(KeyCode::Char('B'), KeyModifiers::none()),
    );
    assert!(matches!(
        library_action,
        KeyEffect::Act(UiAction::Bookmark(PaperTarget::Local(19)))
    ));

    app.page = Page::Collections;
    app.collections.active = Some(CollectionSummary {
        id: 2,
        name: "Reading".into(),
        paper_count: 1,
        folder_path: Some("/tmp/Reading".into()),
    });
    app.collections.papers.push(paper);
    let collection_action = handle_key(
        &mut app,
        KeyEvent::new(KeyCode::Char('B'), KeyModifiers::none()),
    );
    assert!(matches!(
        collection_action,
        KeyEffect::Act(UiAction::Bookmark(PaperTarget::Local(19)))
    ));
}

#[test]
fn bookmarks_can_be_opened_and_removed() {
    let bookmark = BookmarkSummary {
        id: 4,
        paper_id: 23,
        paper_title: "Saved PDF".into(),
        authors: "Researcher".into(),
        year: Some("2026".into()),
        journal: Some("Journal".into()),
        doi: None,
        pdf_path: "/tmp/saved.pdf".into(),
        page: None,
        label: None,
    };
    let mut app = {
        let mut made = App::default();
        made.page = Page::Bookmarks;
        made.content_focused = true;
        made.bookmarks.items = vec![bookmark];
        made
    };
    let open = handle_key(&mut app, KeyEvent::new(KeyCode::Enter, KeyModifiers::none()));
    assert!(matches!(
        open,
        KeyEffect::Act(UiAction::OpenPdf { paper_id: 23, path })
        if path == "/tmp/saved.pdf"
    ));
    let remove = handle_key(
        &mut app,
        KeyEvent::new(KeyCode::Char('B'), KeyModifiers::none()),
    );
    assert!(matches!(
        remove,
        KeyEffect::Act(UiAction::Bookmark(PaperTarget::Local(23)))
    ));
}

#[test]
fn reading_queue_workspace_keybinds_and_actions() {
    let paper = LibraryPaper {
        id: 42,
        title: "Queue Paper".into(),
        authors: "Researcher".into(),
        doi: None,
        arxiv_id: None,
        pdf_path: Some("/tmp/queue.pdf".into()),
        file_size: None,
        reading_status: "unread".into(),
        is_favorite: false,
    };

    // Toggle Add to queue from Library
    let mut app = {
        let mut made = App::default();
        made.page = Page::Library;
        made.content_focused = true;
        made.library.papers = vec![paper.copy()];
        made
    };
    let action = handle_key(&mut app, KeyEvent::new(KeyCode::Char('a'), KeyModifiers::none()));
    assert!(matches!(action, KeyEffect::Act(UiAction::AddToQueue(42))));

    // Toggle Remove from queue from ReadingQueue page
    app.page = Page::ReadingQueue;
    app.queue.papers = vec![paper];
    app.queue.selected = 0;
    let action = handle_key(&mut app, KeyEvent::new(KeyCode::Char('a'), KeyModifiers::none()));
    assert!(matches!(action, KeyEffect::Act(UiAction::RemoveFromQueue(42))));

    // Move Up and Move Down in queue
    let action_up = handle_key(&mut app, KeyEvent::new(KeyCode::Up, KeyModifiers::shift()));
    assert!(matches!(action_up, KeyEffect::Act(UiAction::MoveQueueItemUp(42))));
    let action_down = handle_key(&mut app, KeyEvent::new(KeyCode::Down, KeyModifiers::shift()));
    assert!(matches!(action_down, KeyEffect::Act(UiAction::MoveQueueItemDown(42))));
}

#[test]
fn credits_workspace_keybinds_and_actions() {
    let mut app = {
        let mut made = App::default();
        made.page = Page::Credits;
        made.content_focused = true;
        made.credits.selected = 0;
        made
    };

    // MoveDown command should navigate down
    app.dispatch(Command::MoveDown);
    assert_eq!(app.credits.selected, 1);

    app.dispatch(Command::MoveUp);
    assert_eq!(app.credits.selected, 0);

    // Enter key should trigger UiAction::OpenBrowser(url)
    let action = handle_key(&mut app, KeyEvent::new(KeyCode::Enter, KeyModifiers::none()));
    assert!(matches!(action, KeyEffect::Act(UiAction::OpenBrowser(ref url)) if url == "https://github.com/AfrozSaqlain/Papr"));
}
