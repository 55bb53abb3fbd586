//! Papers on their way into the library: searches, downloads and what is found
//! out about them.

use papr::actions::{apply_ui_action, bookmark_toggled, queue_moved, Work};
use papr::action::{PaperTarget, UiAction};
use papr::discovery::{
    apply_search_response, fetch_discovery_pages, retry_more, CandidatePage, PageFetch,
    SearchResponse, SearchUpdate,
};
use papr::downloads::{
    apply_download_event, clamp_selected, download_attached, download_finished, download_indexed,
    expire_failed_downloads, finalize_download_task, has_active_downloads,
    refresh_downloads_from_dir, retry_download, sanitize_download_filename_component,
    start_download, DownloadEvent, LocalFile, PendingDownloads,
};
use papr::enrichment::{
    apply_enrichment, arxiv_answered, crossref_answered, file_indexed, find_identifiers,
    journal_answered, journal_of_answered, merge_enriched_remote_paper, merge_into, scan_finished,
    spawn_enrichment_if_needed, start_lookup, start_scan, EnrichmentCandidate, EnrichmentOutcome,
    Lookup,
};
use papr::model::{App, DiscoveryStatus, DownloadStatus, LibraryPaper, Page, RemotePaper};

fn remote(id: &str, title: &str) -> RemotePaper {
    RemotePaper {
        id: id.into(),
        title: title.into(),
        authors: vec!["A. Author".into()],
        abstract_text: String::new(),
        published: 0,
        updated: 0,
        categories: vec![],
        pdf_url: Some(format!("https://arxiv.org/pdf/{id}")),
        doi: None,
        journal_ref: None,
    }
}

fn local(id: i64, title: &str) -> LibraryPaper {
    LibraryPaper {
        id,
        title: title.into(),
        authors: String::new(),
        doi: None,
        arxiv_id: None,
        pdf_path: None,
        file_size: None,
        reading_status: "unread".into(),
        is_favorite: false,
    }
}

fn fetch(papers: Vec<RemotePaper>, failures: u8) -> PageFetch {
    PageFetch { query: "q".into(), request_id: 7, papers, start: 100, failures }
}

#[test]
fn pages_are_fetched_one_after_another() {
    let page = CandidatePage { papers: vec![remote("1", "T")], next_start: Some(200) };
    let step = fetch_discovery_pages(fetch(vec![], 2), Ok(page));
    assert!(matches!(step.response.update, SearchUpdate::Partial { papers, next_start: Some(200) }
        if papers.len() == 1));
    let next = step.next.unwrap();
    assert_eq!((next.start, next.failures, next.papers.len(), step.delay), (200, 0, 1, 0));
    let last = CandidatePage { papers: vec![], next_start: None };
    let step = fetch_discovery_pages(fetch(vec![], 0), Ok(last));
    assert!(matches!(step.response.update, SearchUpdate::Complete(papers) if papers.is_empty()));
    assert!(step.next.is_none());
}

#[test]
fn a_page_is_given_up_after_three_retries() {
    let mut current = fetch(vec![remote("1", "T")], 0);
    for (attempt, delay) in [(1, 500), (2, 1000), (3, 2000)] {
        let step = fetch_discovery_pages(current, Err("down".into()));
        assert_eq!(step.delay, delay);
        assert!(matches!(step.response.update, SearchUpdate::Retrying { attempt: a, max_attempts: 3 }
            if a == attempt));
        current = step.next.unwrap();
    }
    let step = fetch_discovery_pages(current, Err("down".into()));
    assert!(matches!(step.response.update, SearchUpdate::PartialFailure { next_start: 100 }));
    assert!(step.next.is_none());
    let step = fetch_discovery_pages(fetch(vec![], 3), Err("down".into()));
    assert!(matches!(step.response.update, SearchUpdate::InitialFailure(error) if error == "down"));
}

#[test]
fn a_given_up_page_can_be_asked_for_again() {
    let mut app = App::default();
    let id = app.discovery.begin_search();
    app.discovery.query = "q".into();
    let response = |update| SearchResponse { query: "q".into(), request_id: id, update };
    apply_search_response(
        &mut app.discovery,
        response(SearchUpdate::Partial { papers: vec![remote("1", "T")], next_start: Some(100) }),
    );
    assert_eq!(app.discovery.progress_message.as_deref(), Some("Loading more results..."));
    apply_search_response(
        &mut app.discovery,
        response(SearchUpdate::Retrying { attempt: 2, max_attempts: 3 }),
    );
    assert_eq!(app.discovery.progress_message.as_deref(), Some("Retrying more results (2/3)..."));
    apply_search_response(&mut app.discovery, response(SearchUpdate::PartialFailure { next_start: 100 }));
    assert!(matches!(app.discovery.status, DiscoveryStatus::Ready));
    let again = retry_more(&mut app.discovery).unwrap();
    assert_eq!((again.query.as_str(), again.start, again.papers.len()), ("q", 100, 1));
    let stale = SearchResponse {
        query: "other".into(),
        request_id: id,
        update: SearchUpdate::InitialFailure("x".into()),
    };
    apply_search_response(&mut app.discovery, stale);
    assert!(!matches!(app.discovery.status, DiscoveryStatus::Error(_)));
}

#[test]
fn titles_become_file_names() {
    assert_eq!(sanitize_download_filename_component(" a/b\\c: d ", false), "a_b\\c: d");
    assert_eq!(sanitize_download_filename_component(" a/b\\c: d?. ", true), "a_b\\c_ d_");
}

#[test]
fn downloads_run_their_course() {
    let mut app = App::default();
    let mut pending = PendingDownloads::new();
    let request =
    start_download(&mut app, &mut pending, remote("2401.00001", "On Light"), "/dl", false).unwrap();
    assert_eq!(request.url, "https://arxiv.org/pdf/2401.00001");
    assert!(request.destination.starts_with("/dl/"));
    let id = request.id.clone();
    assert!(has_active_downloads(&app));
    assert!(start_download(&mut app, &mut pending, remote("2401.00001", "On Light"), "/dl", false).is_none());
    let started = DownloadEvent::Started { id: id.clone(), total: Some(9) };
    assert!(matches!(apply_download_event(&mut app, &mut pending, started, 1), Ok(None)));
    let progress = DownloadEvent::Progress { id: id.clone(), downloaded: 4 };
    assert!(matches!(apply_download_event(&mut app, &mut pending, progress, 2), Ok(None)));
    assert_eq!((app.downloads.tasks[0].downloaded, app.downloads.tasks[0].total), (4, Some(9)));
    let completed = DownloadEvent::Completed { id: id.clone(), path: "/dl/x.pdf.part".into() };
    let promotion = apply_download_event(&mut app, &mut pending, completed, 3).unwrap().unwrap();
    assert_eq!((promotion.temporary.as_str(), promotion.path.as_str()), ("/dl/x.pdf.part", "/dl/x.pdf"));
    let paper = download_indexed(&mut app, &mut pending, &id, "/dl/x.pdf".into(), 9).unwrap();
    assert_eq!(paper.title, "On Light");
    assert!(!pending.contains(&id));
    download_attached(&mut app, &id, 42);
    assert_eq!(app.downloads.tasks[0].paper_id, Some(42));
    download_finished(&mut app, &id);
    assert_eq!(app.downloads.tasks[0].downloaded, 9);
    let unknown = DownloadEvent::Progress { id: "?".into(), downloaded: 1 };
    assert_eq!(
        apply_download_event(&mut app, &mut pending, unknown, 4).unwrap_err(),
        "received download event for unknown task"
    );
}

#[test]
fn failed_downloads_go_after_two_minutes_or_are_tried_again() {
    let mut app = App::default();
    let mut pending = PendingDownloads::new();
    let request = start_download(&mut app, &mut pending, remote("1", "T"), "/dl", false).unwrap();
    let failed = DownloadEvent::Failed { id: request.id.clone(), error: "gone".into() };
    assert!(matches!(apply_download_event(&mut app, &mut pending, failed, 1_000), Ok(None)));
    assert!(!has_active_downloads(&app));
    assert!(!expire_failed_downloads(&mut app, 120_999));
    assert_eq!(app.downloads.tasks.len(), 1);
    if !pending.contains(&request.id) {
        let retry = retry_download(&mut app, &mut pending, &request.id, remote("1", "T"), "/dl").unwrap();
        assert_eq!(retry.url, "https://arxiv.org/pdf/1");
        assert!(matches!(app.downloads.tasks[0].status, DownloadStatus::Starting));
    }
    app.downloads.tasks[0].status = DownloadStatus::Failed("gone".into());
    app.downloads.tasks[0].failed_at = Some(1_000);
    assert!(expire_failed_downloads(&mut app, 121_000));
    assert!(app.downloads.tasks.is_empty());
    assert_eq!((clamp_selected(5, 3), clamp_selected(1, 3), clamp_selected(1, 0)), (2, 1, 0));
}

#[test]
fn files_in_the_folder_become_downloads_once() {
    let mut app = App::default();
    let file = |name: &str, modified: u64| LocalFile {
        name: name.into(),
        path: format!("/dl/{name}"),
        size: 3,
        modified,
        paper: None,
        twin: None,
    };
    let files = vec![file("old.pdf", 1), file("new.pdf", 2)];
    assert!(refresh_downloads_from_dir(&mut app, &files, "/dl").is_empty());
    let ids: Vec<&str> = app.downloads.tasks.iter().map(|task| task.id.as_str()).collect();
    assert_eq!(ids, ["new", "old"]);
    assert!(matches!(app.downloads.tasks[0].status, DownloadStatus::Completed));
    assert!(refresh_downloads_from_dir(&mut app, &files, "/dl").is_empty());
    assert_eq!(app.downloads.tasks.len(), 2);
    assert_eq!(
        finalize_download_task(&app.downloads.tasks[0]),
        Some(("/dl/new.pdf.part".into(), "/dl/new.pdf".into()))
    );
}

#[test]
fn identifiers_are_read_from_the_text_of_a_document() {
    let (arxiv, doi) = find_identifiers("See arXiv:2401.01234v2 [cs]", None, None).unwrap();
    assert_eq!(arxiv.as_deref(), Some("2401.01234"));
    assert_eq!(doi, None);
    let (_, doi) = find_identifiers("doi:10.1000/abc, 2020", None, None).unwrap();
    assert!(doi.unwrap().starts_with("10.1000/abc"));
}

#[test]
fn papers_are_looked_up_one_service_after_another() {
    let doi = "10.1/2".to_owned();
    assert!(matches!(start_lookup(None, None), Lookup::Done(EnrichmentOutcome::Unavailable)));
    assert!(matches!(start_lookup(Some("1".into()), None), Lookup::Arxiv { id } if id == "1"));
    assert!(matches!(start_lookup(Some("1".into()), Some(doi.clone())), Lookup::Crossref { .. }));
    assert!(matches!(
        crossref_answered(doi.clone(), None, Ok(Some(remote("1", "T")))),
        Lookup::JournalOf { .. }
    ));
    let mut known = remote("1", "T");
    known.journal_ref = Some("J".into());
    assert!(matches!(
        crossref_answered(doi.clone(), None, Ok(Some(known))),
        Lookup::Done(EnrichmentOutcome::Success(_))
    ));
    assert!(matches!(
        crossref_answered(doi.clone(), None, Err("x".into())),
        Lookup::Journal { failed: true, .. }
    ));
    assert!(matches!(
        journal_of_answered(remote("1", "T"), Ok(Some("J".into()))),
        Lookup::Done(EnrichmentOutcome::Success(paper)) if paper.journal_ref.as_deref() == Some("J")
    ));
    assert!(matches!(
        journal_answered(None, false, Ok(Some("J".into()))),
        Lookup::Done(EnrichmentOutcome::Journal(journal)) if journal == "J"
    ));
    assert!(matches!(
        journal_answered(Some("1".into()), false, Ok(None)),
        Lookup::Arxiv { .. }
    ));
    assert!(matches!(arxiv_answered(Err("x".into())), Lookup::Done(EnrichmentOutcome::Failed)));
}

#[test]
fn what_is_found_out_is_merged_once() {
    let mut shown = remote("1", "Old");
    shown.abstract_text = "Abstract".into();
    let found = remote("1", "New");
    let merged = merge_enriched_remote_paper(&shown, &found);
    assert_eq!((merged.title.as_str(), merged.abstract_text.as_str()), ("New", "Abstract"));
    let again = merge_enriched_remote_paper(&merged, &found);
    assert_eq!((again.title.as_str(), again.abstract_text.as_str()), ("New", "Abstract"));
    let mut papers = vec![shown, remote("2", "Other")];
    merge_into(&mut papers, &found);
    assert_eq!((papers[0].title.as_str(), papers[1].title.as_str()), ("New", "Other"));
}

#[test]
fn papers_are_enriched_once_at_a_time() {
    let mut app = App::default();
    let mut active = vec![1];
    let candidate = |paper_id| EnrichmentCandidate {
        paper_id,
        arxiv_id: Some("2401.01234".into()),
        doi: None,
        pdf_path: None,
    };
    let batch = spawn_enrichment_if_needed(&mut app, &mut active, vec![candidate(1), candidate(2)]);
    assert_eq!(batch.jobs.len(), 1);
    assert_eq!(batch.jobs[0].paper_id, 2);
    assert_eq!(active, [1, 2]);
    app.today.papers = vec![remote("1", "Old")];
    let outcome = EnrichmentOutcome::Success(remote("1", "New"));
    assert!(apply_enrichment(&mut app, &mut active, 2, &outcome).is_none());
    assert_eq!(app.today.papers[0].title, "New");
    assert_eq!(active, [1]);
}

#[test]
fn scans_of_the_library_are_told() {
    let mut app = App::default();
    assert!(start_scan(&mut app.library, false));
    assert!(app.library.indexing);
    assert!(!start_scan(&mut app.library, false));
    scan_finished(&mut app.library, 12, 3);
    assert!(!app.library.indexing);
    assert_eq!(app.library.message.as_deref(), Some("Indexed 12 PDFs, imported 3 new"));
    file_indexed(&mut app.library, true, "On Light");
    assert_eq!(app.library.message.as_deref(), Some("Imported On Light"));
    file_indexed(&mut app.library, false, "On Light");
    assert_eq!(app.library.message.as_deref(), Some("Ignored duplicate PDF"));
}

#[test]
fn actions_become_work() {
    let mut app = App::default();
    let mut pending = PendingDownloads::new();
    let work = apply_ui_action(&mut app, &mut pending, UiAction::Search("light".into()), "/dl", false, 0);
    assert!(matches!(work, Work::Search(fetch) if fetch.query == "light" && fetch.start == 0));
    let work = apply_ui_action(&mut app, &mut pending, UiAction::OpenBrowser("u".into()), "/dl", false, 0);
    assert!(matches!(work, Work::OpenAddress(url) if url == "u"));
    let target = PaperTarget::Remote(remote("1", "T"));
    let work = apply_ui_action(&mut app, &mut pending, UiAction::CopyCitation(target), "/dl", false, 0);
    assert!(matches!(work, Work::FetchCitation(metadata) if metadata.year.as_deref() == Some("1970")));
    assert_eq!(app.toast.as_deref(), Some("Fetching citation..."));
    app.session_id = Some(3);
    app.session_start = Some(2_000);
    app.page = Page::Library;
    let work = apply_ui_action(&mut app, &mut pending, UiAction::ClosePdf, "/dl", false, 9_000);
    assert!(matches!(work, Work::ClosePdf(Some((3, 7)))));
    bookmark_toggled(&mut app, true);
    let added = app.toast.clone();
    bookmark_toggled(&mut app, false);
    assert_ne!(app.toast, added);
    app.queue.papers = vec![local(1, "A"), local(2, "B")];
    queue_moved(&mut app.queue, false);
    assert_eq!(app.queue.selected, 1);
    queue_moved(&mut app.queue, true);
    assert_eq!(app.queue.selected, 0);
}
