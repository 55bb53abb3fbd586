//! The rows that a list shows under a local search.

use crate::model::{
    AuthorSummary, BookmarkSummary, DiscoveryState, DownloadTask, LibraryPaper, Page, RemotePaper,
};
use crate::strings::{contains_text, lower, occurs, occurs_at, to_lower};
use vstd::prelude::*;

verus! {

/// Positions of the marked rows, in order.
pub open spec fn positions(keep: Seq<bool>) -> Seq<int>
    decreases keep.len(),
{
    if keep.len() == 0 {
        Seq::empty()
    } else if keep.last() {
        positions(keep.drop_last()).push(keep.len() - 1)
    } else {
        positions(keep.drop_last())
    }
}

/// Position of the `k`-th marked row.
pub open spec fn row(keep: Seq<bool>, k: int) -> Option<int> {
    if 0 <= k < positions(keep).len() {
        Some(positions(keep)[k])
    } else {
        None
    }
}

/// Whether one of two texts holds a query, without regard to case.
pub open spec fn matches_query(query: Seq<char>, a: Seq<char>, b: Seq<char>) -> bool {
    query.len() == 0 || occurs(lower(a), lower(query)) || occurs(lower(b), lower(query))
}

/// Marked rows are marked, and come in order.
pub proof fn lemma_positions(keep: Seq<bool>)
    ensures
        forall|i: int|
            0 <= i < positions(keep).len() ==> 0 <= (#[trigger] positions(keep)[i]) < keep.len()
                && keep[positions(keep)[i]],
        forall|i: int, j: int|
            0 <= i < j < positions(keep).len() ==> #[trigger] positions(keep)[i]
                < #[trigger] positions(keep)[j],
        positions(keep).len() <= keep.len(),
    decreases keep.len(),
{
    if keep.len() > 0 {
        lemma_positions(keep.drop_last());
    }
}

/// Every marked row has its place among the positions.
pub proof fn lemma_positions_complete(keep: Seq<bool>, i: int)
    requires
        0 <= i < keep.len(),
        keep[i],
    ensures
        positions(keep).contains(i),
    decreases keep.len(),
{
    if i == keep.len() - 1 {
        assert(positions(keep).last() == i);
    } else {
        lemma_positions_complete(keep.drop_last(), i);
        let k = positions(keep.drop_last()).index_of(i);
        assert(positions(keep)[k] == i);
    }
}

/// Where every row is marked, the `k`-th marked row is row `k`.
pub proof fn lemma_all_marked(keep: Seq<bool>)
    requires
        forall|i: int| 0 <= i < keep.len() ==> keep[i],
    ensures
        positions(keep) == Seq::new(keep.len(), |i: int| i),
    decreases keep.len(),
{
    if keep.len() > 0 {
        lemma_all_marked(keep.drop_last());
    }
    assert(positions(keep) =~= Seq::new(keep.len(), |i: int| i));
}

/// Position of the `k`-th marked row.
pub fn nth_marked(keep: &Vec<bool>, k: usize) -> (r: Option<usize>)
    ensures
        r is Some <==> row(keep@, k as int) is Some,
        r matches Some(i) ==> row(keep@, k as int) == Some(i as int) && i < keep@.len() && keep@[i as int],
{
    let mut seen: usize = 0;
    let mut i: usize = 0;
    proof {
        lemma_positions(keep@);
    }
    assert(keep@.take(0) =~= Seq::<bool>::empty());
    while i < keep.len()
        invariant
            i <= keep@.len(),
            seen == positions(keep@.take(i as int)).len(),
            seen <= k,
            seen <= i,
        decreases keep@.len() - i,
    {
        assert(keep@.take(i + 1).drop_last() =~= keep@.take(i as int));
        if keep[i] {
            if seen == k {
                proof {
                    lemma_positions_prefix(keep@, i + 1, k as int);
                    lemma_positions_prefix_len(keep@, i + 1);
                }
                return Some(i);
            }
            seen = seen + 1;
        }
        i = i + 1;
    }
    assert(keep@.take(keep@.len() as int) =~= keep@);
    None
}

proof fn lemma_positions_prefix_len(keep: Seq<bool>, n: int)
    requires
        0 <= n <= keep.len(),
    ensures
        positions(keep.take(n)).len() <= positions(keep).len(),
    decreases keep.len() - n,
{
    if n < keep.len() {
        lemma_positions_prefix_len(keep, n + 1);
        assert(keep.take(n + 1).drop_last() =~= keep.take(n));
    } else {
        assert(keep.take(n) =~= keep);
    }
}

/// The positions of a prefix are a prefix of the positions.
proof fn lemma_positions_prefix(keep: Seq<bool>, n: int, k: int)
    requires
        0 <= n <= keep.len(),
        0 <= k < positions(keep.take(n)).len(),
    ensures
        positions(keep)[k] == positions(keep.take(n))[k],
    decreases keep.len() - n,
{
    if n < keep.len() {
        assert(keep.take(n + 1).drop_last() =~= keep.take(n));
        lemma_positions_prefix(keep, n + 1, k);
    } else {
        assert(keep.take(n) =~= keep);
    }
}

/// Number of marked rows.
pub fn count_marked(keep: &Vec<bool>) -> (r: usize)
    ensures
        r == positions(keep@).len(),
{
    let mut n: usize = 0;
    let mut i: usize = 0;
    assert(keep@.take(0) =~= Seq::<bool>::empty());
    while i < keep.len()
        invariant
            i <= keep@.len(),
            n == positions(keep@.take(i as int)).len(),
            n <= i,
        decreases keep@.len() - i,
    {
        assert(keep@.take(i + 1).drop_last() =~= keep@.take(i as int));
        if keep[i] {
            n = n + 1;
        }
        i = i + 1;
    }
    assert(keep@.take(keep@.len() as int) =~= keep@);
    n
}

/// Whether one of two texts holds a query, without regard to case.
pub fn query_matches(query: &str, a: &str, b: &str) -> (r: bool)
    ensures
        r == matches_query(query@, a@, b@),
{
    if query.is_empty() {
        return true;
    }
    let q = to_lower(query);
    contains_text(to_lower(a).as_str(), q.as_str()) || contains_text(
        to_lower(b).as_str(),
        q.as_str(),
    )
}

/// Which papers of the library a local search shows.
pub open spec fn shown_papers(papers: Seq<LibraryPaper>, query: Seq<char>) -> Seq<bool> {
    Seq::new(papers.len(), |i: int| matches_query(query, papers[i].title@, papers[i].authors@))
}

/// Which papers of the library a local search shows.
pub fn filtered_papers(papers: &Vec<LibraryPaper>, query: &str) -> (r: Vec<bool>)
    ensures
        r@ == shown_papers(papers@, query@),
{
    let mut r: Vec<bool> = Vec::new();
    let mut i: usize = 0;
    while i < papers.len()
        invariant
            i <= papers@.len(),
            r@.len() == i,
            forall|j: int| 0 <= j < i ==> r@[j] == shown_papers(papers@, query@)[j],
        decreases papers@.len() - i,
    {
        r.push(query_matches(query, papers[i].title.as_str(), papers[i].authors.as_str()));
        i = i + 1;
    }
    assert(r@ =~= shown_papers(papers@, query@));
    r
}

/// Which downloads a local search shows.
pub open spec fn shown_downloads(tasks: Seq<DownloadTask>, query: Seq<char>) -> Seq<bool> {
    Seq::new(tasks.len(), |i: int| matches_query(query, tasks[i].title@, tasks[i].id@))
}

/// Which downloads a local search shows.
pub fn filtered_downloads(tasks: &Vec<DownloadTask>, query: &str) -> (r: Vec<bool>)
    ensures
        r@ == shown_downloads(tasks@, query@),
{
    let mut r: Vec<bool> = Vec::new();
    let mut i: usize = 0;
    while i < tasks.len()
        invariant
            i <= tasks@.len(),
            r@.len() == i,
            forall|j: int| 0 <= j < i ==> r@[j] == shown_downloads(tasks@, query@)[j],
        decreases tasks@.len() - i,
    {
        r.push(query_matches(query, tasks[i].title.as_str(), tasks[i].id.as_str()));
        i = i + 1;
    }
    assert(r@ =~= shown_downloads(tasks@, query@));
    r
}

/// Which bookmarks a local search shows.
pub open spec fn shown_bookmarks(items: Seq<BookmarkSummary>, query: Seq<char>) -> Seq<bool> {
    Seq::new(items.len(), |i: int| matches_query(query, items[i].paper_title@, items[i].authors@))
}

/// Which bookmarks a local search shows.
pub fn filtered_bookmarks(items: &Vec<BookmarkSummary>, query: &str) -> (r: Vec<bool>)
    ensures
        r@ == shown_bookmarks(items@, query@),
{
    let mut r: Vec<bool> = Vec::new();
    let mut i: usize = 0;
    while i < items.len()
        invariant
            i <= items@.len(),
            r@.len() == i,
            forall|j: int| 0 <= j < i ==> r@[j] == shown_bookmarks(items@, query@)[j],
        decreases items@.len() - i,
    {
        r.push(query_matches(query, items[i].paper_title.as_str(), items[i].authors.as_str()));
        i = i + 1;
    }
    assert(r@ =~= shown_bookmarks(items@, query@));
    r
}

/// Which authors a local search shows.
pub open spec fn shown_authors(items: Seq<AuthorSummary>, query: Seq<char>) -> Seq<bool> {
    Seq::new(items.len(), |i: int| matches_query(query, items[i].name@, items[i].name@))
}

/// Which authors a local search shows.
pub fn filtered_authors(items: &Vec<AuthorSummary>, query: &str) -> (r: Vec<bool>)
    ensures
        r@ == shown_authors(items@, query@),
{
    let mut r: Vec<bool> = Vec::new();
    let mut i: usize = 0;
    while i < items.len()
        invariant
            i <= items@.len(),
            r@.len() == i,
            forall|j: int| 0 <= j < i ==> r@[j] == shown_authors(items@, query@)[j],
        decreases items@.len() - i,
    {
        r.push(query_matches(query, items[i].name.as_str(), items[i].name.as_str()));
        i = i + 1;
    }
    assert(r@ =~= shown_authors(items@, query@));
    r
}

/// Whether a search result has a filter text in its title, its abstract or one
/// of its authors.
pub open spec fn result_matches(filter: Seq<char>, paper: RemotePaper) -> bool {
    matches_query(filter, paper.title@, paper.abstract_text@) || exists|i: int|
        0 <= i < paper.authors@.len() && occurs(lower(#[trigger] paper.authors@[i]@), lower(filter))
}

/// Which search results a filter text lets through.
pub open spec fn shown_results(results: Seq<RemotePaper>, filter: Seq<char>) -> Seq<bool> {
    Seq::new(results.len(), |i: int| result_matches(filter, results[i]))
}

fn filter_matches(filter: &str, paper: &RemotePaper) -> (r: bool)
    ensures
        r == result_matches(filter@, *paper),
{
    if query_matches(filter, paper.title.as_str(), paper.abstract_text.as_str()) {
        return true;
    }
    let q = to_lower(filter);
    let mut i: usize = 0;
    while i < paper.authors.len()
        invariant
            i <= paper.authors@.len(),
            q@ == lower(filter@),
            forall|j: int|
                0 <= j < i ==> !occurs(lower(#[trigger] paper.authors@[j]@), lower(filter@)),
        decreases paper.authors@.len() - i,
    {
        if contains_text(to_lower(paper.authors[i].as_str()).as_str(), q.as_str()) {
            return true;
        }
        i = i + 1;
    }
    false
}

/// Which search results a filter text lets through.
pub fn filtered_results(results: &Vec<RemotePaper>, filter: &str) -> (r: Vec<bool>)
    ensures
        r@ == shown_results(results@, filter@),
{
    let mut r: Vec<bool> = Vec::new();
    let mut i: usize = 0;
    while i < results.len()
        invariant
            i <= results@.len(),
            r@.len() == i,
            forall|j: int| 0 <= j < i ==> r@[j] == shown_results(results@, filter@)[j],
        decreases results@.len() - i,
    {
        r.push(filter_matches(filter, &results[i]));
        i = i + 1;
    }
    assert(r@ =~= shown_results(results@, filter@));
    r
}

/// The title of a section.
pub open spec fn title_of(page: Page) -> Seq<char> {
    match page {
        Page::Dashboard => "Dashboard"@,
        Page::Discover => "Discover"@,
        Page::Library => "Library"@,
        Page::ReadingQueue => "Reading Queue"@,
        Page::Collections => "Groups"@,
        Page::Bookmarks => "Bookmarks"@,
        Page::Authors => "Authors"@,
        Page::Notes => "Notes"@,
        Page::Downloads => "Downloads"@,
        Page::Projects => "Projects"@,
        Page::History => "History"@,
        Page::Statistics => "Statistics"@,
        Page::Settings => "Settings"@,
        Page::Credits => "Credits"@,
    }
}

/// The title of a section.
pub fn page_title(page: Page) -> (r: &'static str)
    ensures
        r@ == title_of(page),
{
    match page {
        Page::Dashboard => "Dashboard",
        Page::Discover => "Discover",
        Page::Library => "Library",
        Page::ReadingQueue => "Reading Queue",
        Page::Collections => "Groups",
        Page::Bookmarks => "Bookmarks",
        Page::Authors => "Authors",
        Page::Notes => "Notes",
        Page::Downloads => "Downloads",
        Page::Projects => "Projects",
        Page::History => "History",
        Page::Statistics => "Statistics",
        Page::Settings => "Settings",
        Page::Credits => "Credits",
    }
}

/// Which sections, in the order of the sidebar, the navigator offers.
pub open spec fn offered_pages(query: Seq<char>) -> Seq<bool> {
    Seq::new(
        14,
        |i: int|
            matches_query(
                query,
                title_of(crate::rows::page_of(i)),
                title_of(crate::rows::page_of(i)),
            ),
    )
}

/// The section at a position of the sidebar.
pub open spec fn page_of(i: int) -> Page {
    choose|p: Page| crate::model::page_index(p) == i
}

/// A section is the one at its own position.
pub proof fn lemma_page_of(p: Page)
    ensures
        page_of(crate::model::page_index(p)) == p,
{
}

/// The sections that the navigator offers for a query.
pub fn filtered_palette_items(query: &str) -> (r: Vec<bool>)
    ensures
        r@ == offered_pages(query@),
{
    let mut r: Vec<bool> = Vec::new();
    let mut i: usize = 0;
    while i < 14
        invariant
            i <= 14,
            r@.len() == i,
            forall|j: int| 0 <= j < i ==> r@[j] == offered_pages(query@)[j],
        decreases 14 - i,
    {
        let offered: bool = match Page::at(i) {
            Some(page) => {
                proof {
                    lemma_page_of(page);
                }
                query_matches(query, page_title(page), page_title(page))
            },
            None => false,
        };
        r.push(offered);
        i = i + 1;
    }
    assert(r@ =~= offered_pages(query@));
    r
}

/// Number of search results on one page.
pub const RESULTS_PER_PAGE: usize = 50;

impl DiscoveryState {
    /// Positions in the results of those that the filter lets through.
    pub open spec fn visible(self) -> Seq<int> {
        positions(shown_results(self.results@, self.filter@))
    }

    /// Number of the rows on the current page.
    pub open spec fn page_len(self) -> int {
        let rest = self.visible().len() - self.page * RESULTS_PER_PAGE;
        if rest <= 0 {
            0
        } else if rest < RESULTS_PER_PAGE {
            rest
        } else {
            RESULTS_PER_PAGE as int
        }
    }

    /// Position in the results of the selected one.
    pub open spec fn selected_position(self) -> Option<int> {
        if self.selected < self.page_len() {
            Some(self.visible()[self.page * RESULTS_PER_PAGE + self.selected])
        } else {
            None
        }
    }

    /// Number of results that the filter lets through.
    pub fn filtered_result_count(&self) -> (r: usize)
        ensures
            r == self.visible().len(),
    {
        count_marked(&filtered_results(&self.results, self.filter.as_str()))
    }

    /// Number of the rows on the current page.
    pub fn visible_page_len(&self) -> (r: usize)
        ensures
            r == self.page_len(),
    {
        let n: usize = self.filtered_result_count();
        if self.page > n / 50 {
            return 0;
        }
        let first: usize = self.page * 50;
        if first >= n {
            0
        } else if n - first < 50 {
            n - first
        } else {
            50
        }
    }

    /// The selected result.
    pub fn selected_paper(&self) -> (r: Option<&RemotePaper>)
        ensures
            r is Some <==> self.selected_position() is Some,
            r matches Some(p) ==> 0 <= self.selected_position()->0 < self.results@.len() && *p
                == self.results@[self.selected_position()->0],
    {
        let keep = filtered_results(&self.results, self.filter.as_str());
        let len: usize = self.visible_page_len();
        proof {
            lemma_positions(keep@);
        }
        if self.selected >= len {
            return None;
        }
        let n: usize = self.filtered_result_count();
        let at: usize = self.page * 50 + self.selected;
        match nth_marked(&keep, at) {
            Some(i) => Some(&self.results[i]),
            None => None,
        }
    }

    /// Shows the next page, if there is one.
    pub fn next_page(&mut self)
        ensures
            *final(self) == (if (old(self).page + 1) * RESULTS_PER_PAGE < old(self).visible().len() {
                DiscoveryState {
                    page: (old(self).page + 1) as usize,
                    selected: 0,
                    scroll: 0,
                    ..*old(self)
                }
            } else {
                *old(self)
            }),
    {
        let n: usize = self.filtered_result_count();
        if self.page < n / 50 && (self.page + 1) * 50 < n {
            self.page = self.page + 1;
            self.selected = 0;
            self.scroll = 0;
        }
    }

    /// Shows the previous page, if there is one.
    pub fn previous_page(&mut self)
        ensures
            *final(self) == (if old(self).page > 0 {
                DiscoveryState {
                    page: (old(self).page - 1) as usize,
                    selected: 0,
                    scroll: 0,
                    ..*old(self)
                }
            } else {
                *old(self)
            }),
    {
        if self.page > 0 {
            self.page = self.page - 1;
            self.selected = 0;
            self.scroll = 0;
        }
    }

    /// Goes back to the first row after the filter has changed.
    pub fn rebuild_filter(&mut self)
        ensures
            *final(self) == (DiscoveryState { page: 0, selected: 0, scroll: 0, ..*old(self) }),
    {
        self.page = 0;
        self.selected = 0;
        self.scroll = 0;
    }

    /// Shows new results from the first row on, without a filter.
    pub fn set_results(&mut self, results: Vec<RemotePaper>)
        ensures
            *final(self) == (DiscoveryState {
                results,
                page: 0,
                selected: 0,
                scroll: 0,
                filter: final(self).filter,
                filter_cursor: 0,
                ..*old(self)
            }),
            final(self).filter@.len() == 0,
    {
        self.results = results;
        self.page = 0;
        self.selected = 0;
        self.scroll = 0;
        self.filter = String::new();
        self.filter_cursor = 0;
    }

    /// Shows more results of the same search; the selection stays where it is
    /// as long as its row exists.
    pub fn update_results(&mut self, results: Vec<RemotePaper>)
        ensures
            ({
                let now = DiscoveryState { results, ..*old(self) };
                let last = if now.page_len() == 0 {
                    0
                } else {
                    now.page_len() - 1
                };
                *final(self) == (DiscoveryState {
                    selected: crate::text::min(now.selected as int, last) as usize,
                    ..now
                })
            }),
    {
        self.results = results;
        let len: usize = self.visible_page_len();
        let last: usize = if len == 0 {
            0
        } else {
            len - 1
        };
        if self.selected > last {
            self.selected = last;
        }
    }
}

/// A search shows the rows in which one of its two texts holds what was typed, without
/// regard to case; an empty search shows every row, and a text finds itself.
pub proof fn lemma_search_finds_texts(query: Seq<char>, a: Seq<char>, b: Seq<char>, i: int)
    ensures
        query.len() == 0 ==> matches_query(query, a, b),
        occurs_at(lower(a), lower(query), i) ==> matches_query(query, a, b),
        occurs_at(lower(b), lower(query), i) ==> matches_query(query, a, b),
        query.len() > 0 && (forall|k: int|
            !occurs_at(lower(a), lower(query), k) && !occurs_at(lower(b), lower(query), k))
            ==> !matches_query(query, a, b),
        matches_query(a, a, b) && matches_query(b, a, b),
{
    assert(lower(a).subrange(0, lower(a).len() as int) =~= lower(a));
    assert(lower(b).subrange(0, lower(b).len() as int) =~= lower(b));
    assert(occurs_at(lower(a), lower(a), 0));
    assert(occurs_at(lower(b), lower(b), 0));
}

/// Papers are found by title and authors, downloads by title and identifier, bookmarks
/// by the title and the authors of their paper, and authors by name.
pub proof fn lemma_rows_are_found_by(
    papers: Seq<LibraryPaper>,
    tasks: Seq<DownloadTask>,
    bookmarks: Seq<BookmarkSummary>,
    authors: Seq<AuthorSummary>,
    query: Seq<char>,
    i: int,
)
    requires
        query.len() > 0,
        0 <= i,
    ensures
        ({
            let holds = |s: Seq<char>| exists|k: int| occurs_at(lower(s), lower(query), k);
            &&& i < papers.len() ==> (shown_papers(papers, query)[i] <==> holds(papers[i].title@)
                || holds(papers[i].authors@))
            &&& i < tasks.len() ==> (shown_downloads(tasks, query)[i] <==> holds(tasks[i].title@)
                || holds(tasks[i].id@))
            &&& i < bookmarks.len() ==> (shown_bookmarks(bookmarks, query)[i] <==> holds(
                bookmarks[i].paper_title@,
            ) || holds(bookmarks[i].authors@))
            &&& i < authors.len() ==> (shown_authors(authors, query)[i] <==> holds(
                authors[i].name@,
            ))
        }),
{
}

/// A search result is found by its title, its abstract or any of its authors.
pub proof fn lemma_results_are_found_by(filter: Seq<char>, paper: RemotePaper)
    requires
        filter.len() > 0,
    ensures
        ({
            let holds = |s: Seq<char>| exists|k: int| occurs_at(lower(s), lower(filter), k);
            result_matches(filter, paper) <==> holds(paper.title@) || holds(paper.abstract_text@)
                || exists|a: int| 0 <= a < paper.authors@.len() && holds(#[trigger] paper.authors@[a]@)
        }),
{
    let holds = |s: Seq<char>| exists|k: int| occurs_at(lower(s), lower(filter), k);
    assert forall|a: int| 0 <= a < paper.authors@.len() implies occurs(
        lower(#[trigger] paper.authors@[a]@),
        lower(filter),
    ) == holds(paper.authors@[a]@) by {}
}

/// The results that are let through are shown page by page, each on one page: row `r` of
/// page `p` is result `50 * p + r` of them, and a page is full unless it is
/// the last.
pub proof fn lemma_results_fill_pages(d: DiscoveryState)
    ensures
        0 <= d.page_len() <= 50,
        d.visible().len() >= (d.page + 1) * 50 ==> d.page_len() == 50,
        d.page * 50 <= d.visible().len() < (d.page + 1) * 50 ==> d.page_len()
            == d.visible().len() - d.page * 50,
        d.visible().len() < d.page * 50 ==> d.page_len() == 0,
        d.selected < d.page_len() ==> d.selected_position() == Some(
            d.visible()[d.page * 50 + d.selected],
        ),
        d.selected >= d.page_len() ==> d.selected_position() is None,
{
}

} // verus!
