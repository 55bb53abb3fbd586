//! Downloads.

use papr::action::{PaperTarget, UiAction};
use papr::downloads::{
    refresh_downloads_from_dir, sanitize_download_filename_component, LocalFile,
};
use papr::effect::KeyEffect;
use papr::input::handle_key;
use papr::keys::{KeyCode, KeyEvent, KeyModifiers};
use papr::model::{App, AppMode, DownloadStatus, DownloadTask, LibraryPaper, Page, RemotePaper};
use papr::workspaces::handle_downloads_key;

#[test]
fn downloads_workspace_retries_failed_download() {
    let paper = RemotePaper {
        id: "retry_id".into(),
        title: "Retry Paper".into(),
        authors: vec!["Researcher".into()],
        abstract_text: "Abstract".into(),
        published: 0,
        updated: 0,
        categories: vec!["cs.DL".into()],
        pdf_url: Some("http://example.com/retry.pdf".into()),
        doi: None,
        journal_ref: None,
    };
    let mut app = {
        let mut made = App::default();
        made.page = Page::Downloads;
        made.content_focused = true;
        made.downloads.tasks = vec![DownloadTask {
            id: "retry_id".into(),
            title: "Retry Paper".into(),
            downloaded: 0,
            total: None,
            paper_id: None,
            pdf_path: Some("/tmp/retry_path.pdf".into()),
            status: DownloadStatus::Failed("Network Error".into()),
            remote_paper: Some(paper.copy()),
            linked_paper: None,
            failed_at: Some(0),
        }];
        made
    };
    let action = handle_downloads_key(&mut app, KeyEvent::new(KeyCode::Char('r'), KeyModifiers::none()));
    assert!(action.is_some());
    if let Some(UiAction::RetryDownload { id, paper: retry_paper }) = action {
        assert_eq!(id, "retry_id");
        assert_eq!(retry_paper.title, "Retry Paper");
    } else {
        panic!("Expected UiAction::RetryDownload");
    }
}

#[test]
fn downloads_workspace_syncs_completed_entries_to_download_directory() {
    let file = |name: &str| LocalFile {
        name: name.into(),
        path: format!("/downloads/{name}"),
        size: 9,
        modified: 1,
        paper: None,
        twin: None,
    };
    let mut app = App::default();
    app.downloads.tasks = vec![
        DownloadTask {
            id: "stale".into(),
            title: "Stale".into(),
            downloaded: 10,
            total: Some(10),
            paper_id: None,
            linked_paper: None,
            pdf_path: Some("/downloads/stale.pdf".into()),
            status: DownloadStatus::Completed,
            remote_paper: None,
            failed_at: None,
        },
        DownloadTask {
            id: "running".into(),
            title: "Running".into(),
            downloaded: 5,
            total: Some(10),
            paper_id: None,
            linked_paper: None,
            pdf_path: None,
            status: DownloadStatus::Running,
            remote_paper: None,
            failed_at: None,
        },
    ];

    refresh_downloads_from_dir(&mut app, &vec![file("keep.pdf")], "/downloads");
    let tasks = &app.downloads.tasks;
    assert_eq!(tasks.len(), 2);
    assert!(tasks.iter().any(|task| task.id == "running"));
    assert!(tasks.iter().any(|task| task.pdf_path.as_deref() == Some("/downloads/keep.pdf")));
    assert!(!tasks.iter().any(|task| task.id == "stale"));

    refresh_downloads_from_dir(&mut app, &vec![file("incoming.pdf")], "/downloads");
    let tasks = &app.downloads.tasks;
    assert!(tasks.iter().any(|task| task.pdf_path.as_deref() == Some("/downloads/incoming.pdf")));
    assert!(!tasks.iter().any(|task| task.pdf_path.as_deref() == Some("/downloads/keep.pdf")));
}

#[test]
fn downloads_keybinding_g_assigns_to_group() {
    let library_paper = LibraryPaper {
        id: 11,
        title: "Library Paper".into(),
        authors: "Researcher".into(),
        doi: None,
        arxiv_id: None,
        pdf_path: Some("/tmp/library.pdf".into()),
        file_size: Some(1),
        reading_status: "read".into(),
        is_favorite: false,
    };

    let mut downloads_app = {
        let mut made = App::default();
        made.page = Page::Downloads;
        made.content_focused = true;
        made.library.papers = vec![library_paper];
        made.downloads.tasks = vec![DownloadTask {
            id: "paper".into(),
            title: "Paper".into(),
            downloaded: 10,
            total: Some(10),
            paper_id: Some(11),
            pdf_path: Some("/tmp/library.pdf".into()),
            status: DownloadStatus::Completed,
            remote_paper: None,
            linked_paper: None,
            failed_at: None,
        }];
        made
    };
    assert!(matches!(
        handle_key(
            &mut downloads_app,
            KeyEvent::new(KeyCode::Char('g'), KeyModifiers::none())
        ),
        KeyEffect::Act(UiAction::Prompt(PaperTarget::Local(11)))
    ));
    assert_eq!(downloads_app.modal_return, AppMode::Normal);
}

#[test]
fn download_filename_preserves_colon_on_supported_platforms() {
    let sanitized = sanitize_download_filename_component("AntiGlitch: Better / Faster", false);
    assert_eq!(sanitized, "AntiGlitch: Better _ Faster");
}

#[test]
fn download_filename_sanitizes_colon_on_windows() {
    let sanitized = sanitize_download_filename_component("AntiGlitch: Better / Faster", true);
    assert_eq!(sanitized, "AntiGlitch_ Better _ Faster");
}
