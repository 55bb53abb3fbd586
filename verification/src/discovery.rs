//! Online searches: pages that are fetched one after another, and what the
//! answers do to the list of results.

use crate::model::{
    copy_papers, papers_view, App, DiscoveryState, DiscoveryStatus, RemotePaper, RemotePaperView,
};
use crate::strings::{concat, decimal, opt_text, same_text, to_decimal};
use vstd::prelude::*;

verus! {

/// How many candidates a search looks at.
pub const DISCOVERY_CANDIDATE_LIMIT: u16 = 250;

/// How many candidates one page holds.
pub const DISCOVERY_FETCH_BATCH_SIZE: u16 = 100;

/// How often a failed page is fetched again.
pub const DISCOVERY_PAGE_RETRY_ATTEMPTS: u8 = 3;

/// Time before the first further attempt, in milliseconds.
pub const DISCOVERY_PAGE_RETRY_BASE_DELAY: u64 = 500;

/// What a search reports.
#[derive(Debug)]
pub enum SearchUpdate {
    Partial { papers: Vec<RemotePaper>, next_start: Option<u16> },
    Retrying { attempt: u8, max_attempts: u8 },
    Complete(Vec<RemotePaper>),
    InitialFailure(String),
    PartialFailure { next_start: u16 },
}

/// A [`SearchUpdate`] by its texts.
pub enum UpdateView {
    Partial { papers: Seq<RemotePaperView>, next_start: Option<u16> },
    Retrying { attempt: u8, max_attempts: u8 },
    Complete(Seq<RemotePaperView>),
    InitialFailure(Seq<char>),
    PartialFailure { next_start: u16 },
}

impl View for SearchUpdate {
    type V = UpdateView;

    open spec fn view(&self) -> UpdateView {
        match self {
            SearchUpdate::Partial { papers, next_start } => UpdateView::Partial {
                papers: papers_view(papers@),
                next_start: *next_start,
            },
            SearchUpdate::Retrying { attempt, max_attempts } => UpdateView::Retrying {
                attempt: *attempt,
                max_attempts: *max_attempts,
            },
            SearchUpdate::Complete(papers) => UpdateView::Complete(papers_view(papers@)),
            SearchUpdate::InitialFailure(error) => UpdateView::InitialFailure(error@),
            SearchUpdate::PartialFailure { next_start } => UpdateView::PartialFailure {
                next_start: *next_start,
            },
        }
    }
}

/// A report of the search that was asked for.
#[derive(Debug)]
pub struct SearchResponse {
    pub query: String,
    pub request_id: u64,
    pub update: SearchUpdate,
}

/// A page to be fetched: the papers found before it, where it starts, and how
/// often it has failed.
#[derive(Debug)]
pub struct PageFetch {
    pub query: String,
    pub request_id: u64,
    pub papers: Vec<RemotePaper>,
    pub start: u16,
    pub failures: u8,
}

/// A page that was fetched: all papers found so far, and where the next one
/// starts.
#[derive(Debug)]
pub struct CandidatePage {
    pub papers: Vec<RemotePaper>,
    pub next_start: Option<u16>,
}

/// What follows a fetched page: a report and, after `delay` milliseconds, the
/// next page.
#[derive(Debug)]
pub struct FetchStep {
    pub response: SearchResponse,
    pub next: Option<PageFetch>,
    pub delay: u64,
}

/// Time before the next attempt at a page that had failed `failures` times
/// before: it doubles each time.
pub open spec fn retry_delay(failures: nat) -> nat
    decreases failures,
{
    if failures == 0 {
        DISCOVERY_PAGE_RETRY_BASE_DELAY as nat
    } else {
        2 * retry_delay((failures - 1) as nat)
    }
}

/// What is reported of a page.
pub open spec fn fetch_update(fetch: PageFetch, result: Result<CandidatePage, String>) -> UpdateView {
    match result {
        Ok(page) => match page.next_start {
            Some(next) => UpdateView::Partial {
                papers: papers_view(page.papers@),
                next_start: Some(next),
            },
            None => UpdateView::Complete(papers_view(page.papers@)),
        },
        Err(error) => if fetch.failures < DISCOVERY_PAGE_RETRY_ATTEMPTS {
            UpdateView::Retrying {
                attempt: (fetch.failures + 1) as u8,
                max_attempts: DISCOVERY_PAGE_RETRY_ATTEMPTS,
            }
        } else if fetch.papers@.len() == 0 {
            UpdateView::InitialFailure(error@)
        } else {
            UpdateView::PartialFailure { next_start: fetch.start }
        },
    }
}

/// Whether `next` is the page to be fetched after a page.
pub open spec fn fetch_next(
    fetch: PageFetch,
    result: Result<CandidatePage, String>,
    next: Option<PageFetch>,
) -> bool {
    match result {
        Ok(page) => match page.next_start {
            Some(start) => next matches Some(n) && n.query@ == fetch.query@ && n.request_id
                == fetch.request_id && papers_view(n.papers@) == papers_view(page.papers@)
                && n.start == start && n.failures == 0,
            None => next is None,
        },
        Err(_) => if fetch.failures < DISCOVERY_PAGE_RETRY_ATTEMPTS {
            next matches Some(n) && n.query@ == fetch.query@ && n.request_id == fetch.request_id
                && papers_view(n.papers@) == papers_view(fetch.papers@) && n.start == fetch.start
                && n.failures == fetch.failures + 1
        } else {
            next is None
        },
    }
}

/// What follows a fetched page. A page that fails is tried a few more times,
/// after longer and longer delays.
pub fn fetch_discovery_pages(fetch: PageFetch, result: Result<CandidatePage, String>) -> (r:
    FetchStep)
    ensures
        r.response.query@ == fetch.query@,
        r.response.request_id == fetch.request_id,
        r.response.update@ == fetch_update(fetch, result),
        fetch_next(fetch, result, r.next),
        r.delay == (if result is Err && r.next is Some {
            retry_delay(fetch.failures as nat)
        } else {
            0
        }),
{
    let query = fetch.query.clone();
    let request_id: u64 = fetch.request_id;
    match result {
        Ok(page) => match page.next_start {
            Some(start) => {
                let papers = copy_papers(&page.papers);
                FetchStep {
                    response: SearchResponse {
                        query,
                        request_id,
                        update: SearchUpdate::Partial { papers, next_start: Some(start) },
                    },
                    next: Some(
                        PageFetch {
                            query: fetch.query,
                            request_id,
                            papers: page.papers,
                            start,
                            failures: 0,
                        },
                    ),
                    delay: 0,
                }
            },
            None => FetchStep {
                response: SearchResponse {
                    query,
                    request_id,
                    update: SearchUpdate::Complete(page.papers),
                },
                next: None,
                delay: 0,
            },
        },
        Err(error) => {
            if fetch.failures < DISCOVERY_PAGE_RETRY_ATTEMPTS {
                proof {
                    reveal_with_fuel(retry_delay, 3);
                }
                let attempt: u8 = fetch.failures + 1;
                let delay: u64 = match fetch.failures {
                    0 => 500,
                    1 => 1000,
                    _ => 2000,
                };
                FetchStep {
                    response: SearchResponse {
                        query,
                        request_id,
                        update: SearchUpdate::Retrying {
                            attempt,
                            max_attempts: DISCOVERY_PAGE_RETRY_ATTEMPTS,
                        },
                    },
                    next: Some(
                        PageFetch {
                            query: fetch.query,
                            request_id,
                            papers: fetch.papers,
                            start: fetch.start,
                            failures: attempt,
                        },
                    ),
                    delay,
                }
            } else {
                let update = if fetch.papers.len() == 0 {
                    SearchUpdate::InitialFailure(error)
                } else {
                    SearchUpdate::PartialFailure { next_start: fetch.start }
                };
                FetchStep {
                    response: SearchResponse { query, request_id, update },
                    next: None,
                    delay: 0,
                }
            }
        },
    }
}

/// A page is given up after its last attempt, and what was found before it is
/// kept: the report names the page, so that it can be fetched later.
pub proof fn lemma_page_given_up(fetch: PageFetch, error: String, next: Option<PageFetch>)
    requires
        fetch.failures == DISCOVERY_PAGE_RETRY_ATTEMPTS,
        fetch_next(fetch, Err(error), next),
    ensures
        next is None,
        fetch.papers@.len() > 0 ==> fetch_update(fetch, Err(error)) == (
        UpdateView::PartialFailure { next_start: fetch.start }),
{
}

impl DiscoveryState {
    /// Starts a search: earlier results go, and answers to earlier searches are
    /// told apart by the number of the request.
    pub fn begin_search(&mut self) -> (request_id: u64)
        ensures
            request_id == (if old(self).request_id == u64::MAX {
                0
            } else {
                (old(self).request_id + 1) as u64
            }),
            *final(self) == (DiscoveryState {
                results: final(self).results,
                page: 0,
                selected: 0,
                scroll: 0,
                filter: final(self).filter,
                filter_cursor: 0,
                status: DiscoveryStatus::Loading,
                progress_message: None,
                next_batch_start: None,
                request_id,
                ..*old(self)
            }),
            final(self).results@.len() == 0,
            final(self).filter@.len() == 0,
    {
        self.set_results(Vec::new());
        self.request_id = if self.request_id == u64::MAX {
            0
        } else {
            self.request_id + 1
        };
        self.status = DiscoveryStatus::Loading;
        self.progress_message = None;
        self.next_batch_start = None;
        self.request_id
    }
}

/// Told to the user while further pages are fetched.
pub open spec fn loading_more() -> Seq<char> {
    "Loading more results..."@
}

/// Asks again for the page that could not be fetched.
pub fn retry_more(discovery: &mut DiscoveryState) -> (r: Option<PageFetch>)
    ensures
        match old(discovery).next_batch_start {
            None => r is None && *final(discovery) == *old(discovery),
            Some(start) => {
                &&& r matches Some(fetch) && fetch.query@ == old(discovery).query@
                    && fetch.request_id == old(discovery).request_id && papers_view(fetch.papers@)
                    == papers_view(old(discovery).results@) && fetch.start == start
                    && fetch.failures == 0
                &&& *final(discovery) == (DiscoveryState {
                    status: DiscoveryStatus::Loading,
                    progress_message: final(discovery).progress_message,
                    ..*old(discovery)
                })
                &&& opt_text(final(discovery).progress_message) == Some(loading_more())
            },
        },
{
    let start: u16 = match discovery.next_batch_start {
        Some(start) => start,
        None => return None,
    };
    discovery.status = DiscoveryStatus::Loading;
    discovery.progress_message = Some("Loading more results...".to_owned());
    Some(
        PageFetch {
            query: discovery.query.clone(),
            request_id: discovery.request_id,
            papers: copy_papers(&discovery.results),
            start,
            failures: 0,
        },
    )
}

/// Whether a report belongs to the search that is shown.
pub open spec fn is_current(discovery: DiscoveryState, response: SearchResponse) -> bool {
    response.query@ == discovery.query@ && response.request_id == discovery.request_id
}

/// The results after more of them have come in; see
/// [`DiscoveryState::update_results`].
pub open spec fn with_results(d: DiscoveryState, results: Vec<RemotePaper>) -> DiscoveryState {
    let now = DiscoveryState { results, ..d };
    let last = if now.page_len() == 0 {
        0
    } else {
        now.page_len() - 1
    };
    DiscoveryState { selected: crate::text::min(now.selected as int, last) as usize, ..now }
}

/// What a report does to the search that it belongs to.
pub open spec fn search_updated(
    before: DiscoveryState,
    after: DiscoveryState,
    update: SearchUpdate,
) -> bool {
    match update {
        SearchUpdate::Partial { papers, next_start } => {
            &&& after == DiscoveryState {
                next_batch_start: next_start,
                progress_message: after.progress_message,
                status: DiscoveryStatus::Loading,
                ..with_results(before, papers)
            }
            &&& opt_text(after.progress_message) == (if next_start is Some {
                Some(loading_more())
            } else {
                None
            })
        },
        SearchUpdate::Retrying { attempt, max_attempts } => {
            &&& after == DiscoveryState {
                progress_message: after.progress_message,
                status: DiscoveryStatus::Loading,
                ..before
            }
            &&& opt_text(after.progress_message) == Some(
                "Retrying more results ("@ + decimal(attempt as nat) + "/"@ + decimal(
                    max_attempts as nat,
                ) + ")..."@,
            )
        },
        SearchUpdate::Complete(papers) => after == DiscoveryState {
            next_batch_start: None,
            progress_message: None,
            status: DiscoveryStatus::Ready,
            ..with_results(before, papers)
        },
        SearchUpdate::InitialFailure(error) => after == DiscoveryState {
            status: DiscoveryStatus::Error(error),
            ..before
        },
        SearchUpdate::PartialFailure { next_start } => {
            &&& after == DiscoveryState {
                next_batch_start: Some(next_start),
                progress_message: after.progress_message,
                status: DiscoveryStatus::Ready,
                ..before
            }
            &&& opt_text(after.progress_message) == Some(crate::input::retry_message())
        },
    }
}

/// Shows what a search reports, unless it is not the search that is shown.
pub fn apply_search_response(discovery: &mut DiscoveryState, response: SearchResponse)
    ensures
        if is_current(*old(discovery), response) {
            search_updated(*old(discovery), *final(discovery), response.update)
        } else {
            *final(discovery) == *old(discovery)
        },
{
    if !same_text(response.query.as_str(), discovery.query.as_str()) || response.request_id
        != discovery.request_id {
        return ;
    }
    match response.update {
        SearchUpdate::Partial { papers, next_start } => {
            discovery.update_results(papers);
            discovery.next_batch_start = next_start;
            discovery.progress_message = match next_start {
                Some(_) => Some("Loading more results...".to_owned()),
                None => None,
            };
            discovery.status = DiscoveryStatus::Loading;
        },
        SearchUpdate::Retrying { attempt, max_attempts } => {
            let a = concat("Retrying more results (", to_decimal(attempt as u64).as_str());
            let b = concat(a.as_str(), "/");
            let c = concat(b.as_str(), to_decimal(max_attempts as u64).as_str());
            discovery.progress_message = Some(concat(c.as_str(), ")..."));
            discovery.status = DiscoveryStatus::Loading;
        },
        SearchUpdate::Complete(papers) => {
            discovery.update_results(papers);
            discovery.next_batch_start = None;
            discovery.progress_message = None;
            discovery.status = DiscoveryStatus::Ready;
        },
        SearchUpdate::InitialFailure(error) => {
            discovery.status = DiscoveryStatus::Error(error);
        },
        SearchUpdate::PartialFailure { next_start } => {
            discovery.next_batch_start = Some(next_start);
            discovery.progress_message = Some(
                "More results could not be loaded. Press r to retry.".to_owned(),
            );
            discovery.status = DiscoveryStatus::Ready;
        },
    }
}

/// A page that has been given up can be asked for with the retry key, and is then
/// fetched from where it starts, with all that was found before it.
pub proof fn lemma_given_up_page_can_be_retried(
    before: App,
    after: App,
    next_start: u16,
    key: crate::keys::KeyEvent,
)
    requires
        search_updated(
            before.discovery,
            after.discovery,
            SearchUpdate::PartialFailure { next_start },
        ),
        after.page == crate::model::Page::Discover,
        crate::strings::trimmed(after.discovery.query@).len() > 0,
        key.code == crate::keys::KeyCode::Char('r'),
    ensures
        crate::input::section_action(after, key) == Some(
            crate::action::ActionView::RetryDiscoverMore,
        ),
        after.discovery.next_batch_start == Some(next_start),
        after.discovery.results == before.discovery.results,
{
}

// ---------------------------------------------------------------------------
// What holds of all searches
// ---------------------------------------------------------------------------

/// The first attempt after a failure comes after half a second, and every further one
/// after twice the time.
pub proof fn lemma_delays_double(failures: nat)
    ensures
        retry_delay(0) == 500,
        retry_delay(failures + 1) == 2 * retry_delay(failures),
{
}

/// What has been found is never lost on the way: a page that comes adds to it what it
/// holds, a page that fails leaves it as it is, and the next page is asked for from
/// where the last one ended.
pub proof fn lemma_found_papers_are_kept(
    fetch: PageFetch,
    result: Result<CandidatePage, String>,
    next: Option<PageFetch>,
)
    requires
        fetch_next(fetch, result, next),
        fetch.failures <= 3,
    ensures
        result matches Ok(page) ==> {
            &&& next is Some <==> page.next_start is Some
            &&& next matches Some(n) ==> Some(n.start) == page.next_start && papers_view(n.papers@)
                == papers_view(page.papers@) && n.query@ == fetch.query@ && n.request_id
                == fetch.request_id && n.failures == 0
            &&& page.next_start is None ==> fetch_update(fetch, result) == UpdateView::Complete(
                papers_view(page.papers@),
            )
            &&& page.next_start is Some ==> fetch_update(fetch, result) == (UpdateView::Partial {
                papers: papers_view(page.papers@),
                next_start: page.next_start,
            })
        },
        result matches Err(error) ==> {
            &&& next is Some <==> fetch.failures < 3
            &&& next matches Some(n) ==> n.start == fetch.start && papers_view(n.papers@)
                == papers_view(fetch.papers@) && n.query@ == fetch.query@ && n.request_id
                == fetch.request_id && n.failures == fetch.failures + 1
            &&& next is None && fetch.papers@.len() > 0 ==> fetch_update(fetch, result) == (
            UpdateView::PartialFailure { next_start: fetch.start })
            &&& next is None && fetch.papers@.len() == 0 ==> fetch_update(fetch, result)
                == UpdateView::InitialFailure(error@)
            &&& next is Some ==> fetch_update(fetch, result) is Retrying
        },
{
}

/// A report replaces the results by those that it brings, and by nothing else; a failure
/// leaves them. The selected row stays on the page.
pub proof fn lemma_reports_keep_results(
    before: DiscoveryState,
    after: DiscoveryState,
    update: SearchUpdate,
)
    requires
        search_updated(before, after, update),
    ensures
        after.query == before.query && after.request_id == before.request_id,
        after.page == before.page && after.filter == before.filter,
        update matches SearchUpdate::Partial { papers, next_start } ==> after.results == papers
            && after.next_batch_start == next_start && after.status is Loading,
        update matches SearchUpdate::Complete(papers) ==> after.results == papers
            && after.next_batch_start is None && after.status is Ready,
        update is Retrying || update is InitialFailure || update is PartialFailure
            ==> after.results == before.results && after.selected == before.selected,
        update matches SearchUpdate::InitialFailure(error) ==> after.status
            == DiscoveryStatus::Error(error),
        update matches SearchUpdate::PartialFailure { next_start } ==> after.next_batch_start
            == Some(next_start) && after.status is Ready,
        after.selected <= before.selected,
{
}

} // verus!
