//! Completing what is known of papers from online catalogues.

use crate::chars::{digit, is_digit, is_whitespace, whitespace};
use crate::downloads::finalize_download_task;
use crate::model::{
    papers_view, App, DiscoveryState, DownloadStatus, DownloadTask, DownloadsState, LibraryState,
    RemotePaper, RemotePaperView, TodayState,
};
use crate::organization::{find_task_of_paper, task_of_paper};
use crate::paths::with_extension;
use crate::strings::{
    concat, decimal, find_from, is_blank, lower, occurs_at, opt_text, same_text, to_decimal,
    to_lower, trimmed,
};
use crate::text::{
    byte_len, byte_offset, char_index, from_range, index_at, is_boundary, offset, text_len,
    to_chars,
};
use vstd::prelude::*;

verus! {

/// A paper of which more could be known.
#[derive(Debug)]
pub struct EnrichmentCandidate {
    pub paper_id: i64,
    pub arxiv_id: Option<String>,
    pub doi: Option<String>,
    pub pdf_path: Option<String>,
}

/// What the catalogues know of a paper.
#[derive(Debug)]
pub enum EnrichmentOutcome {
    Success(RemotePaper),
    Journal(String),
    Failed,
    Unavailable,
}

/// Whether a paper is among candidates that nobody looks up yet.
pub open spec fn wanted(candidates: Seq<EnrichmentCandidate>, active: Seq<i64>, id: i64) -> bool {
    !active.contains(id) && exists|i: int|
        0 <= i < candidates.len() && (#[trigger] candidates[i]).paper_id == id
}

/// The candidates that nobody looks up yet.
pub open spec fn new_jobs(candidates: Seq<EnrichmentCandidate>, active: Seq<i64>) -> Seq<
    EnrichmentCandidate,
> {
    candidates.filter(|c: EnrichmentCandidate| !active.contains(c.paper_id))
}

/// Whether a download waits for nothing more.
pub open spec fn settled(
    task: DownloadTask,
    candidates: Seq<EnrichmentCandidate>,
    active: Seq<i64>,
) -> bool {
    task.status is ExtractingMetadata && !(task.paper_id matches Some(id) && wanted(
        candidates,
        active,
        id,
    ))
}

/// A download once the lookups have been started: the first one of each paper
/// shows that it is looked up, and one that waits for nothing is complete.
pub open spec fn after_spawn(
    tasks: Seq<DownloadTask>,
    candidates: Seq<EnrichmentCandidate>,
    active: Seq<i64>,
    i: int,
) -> DownloadTask {
    let task = tasks[i];
    if task.paper_id matches Some(id) && wanted(candidates, active, id) && task_of_paper(
        tasks,
        id,
        0,
    ) == Some(i) {
        DownloadTask { status: DownloadStatus::Enriching, ..task }
    } else if settled(task, candidates, active) {
        DownloadTask { status: DownloadStatus::Completed, ..task }
    } else {
        task
    }
}

/// The temporary file and the name of each of the first `n` downloads that wait
/// for nothing more.
pub open spec fn settled_files(
    tasks: Seq<DownloadTask>,
    candidates: Seq<EnrichmentCandidate>,
    active: Seq<i64>,
    n: int,
) -> Seq<(Seq<char>, Seq<char>)>
    decreases n,
{
    if n <= 0 {
        Seq::empty()
    } else {
        let before = settled_files(tasks, candidates, active, n - 1);
        match tasks[n - 1].pdf_path {
            Some(path) => if settled(tasks[n - 1], candidates, active) {
                before.push((with_extension(path@, "pdf.part"@), path@))
            } else {
                before
            },
            None => before,
        }
    }
}

/// The pairs of a list by their texts.
pub open spec fn pairs_view(v: Seq<(String, String)>) -> Seq<(Seq<char>, Seq<char>)> {
    Seq::new(v.len(), |i: int| (v[i].0@, v[i].1@))
}

/// Whether `id` is one of `ids`.
pub fn holds_id(ids: &Vec<i64>, id: i64) -> (r: bool)
    ensures
        r == ids@.contains(id),
{
    let mut i: usize = 0;
    while i < ids.len()
        invariant
            i <= ids@.len(),
            forall|j: int| 0 <= j < i ==> ids@[j] != id,
        decreases ids@.len() - i,
    {
        if ids[i] == id {
            return true;
        }
        i = i + 1;
    }
    false
}

fn is_wanted(jobs: &Vec<EnrichmentCandidate>, id: i64) -> (r: bool)
    ensures
        r == exists|i: int| 0 <= i < jobs@.len() && (#[trigger] jobs@[i]).paper_id == id,
{
    let mut i: usize = 0;
    while i < jobs.len()
        invariant
            i <= jobs@.len(),
            forall|j: int| 0 <= j < i ==> (#[trigger] jobs@[j]).paper_id != id,
        decreases jobs@.len() - i,
    {
        if jobs[i].paper_id == id {
            return true;
        }
        i = i + 1;
    }
    false
}

/// Lookups to be made, and the files of downloads that wait for none: each
/// temporary file that exists takes its name.
#[derive(Debug)]
pub struct EnrichmentBatch {
    pub jobs: Vec<EnrichmentCandidate>,
    pub files: Vec<(String, String)>,
}

proof fn lemma_jobs(candidates: Seq<EnrichmentCandidate>, active: Seq<i64>)
    ensures
        forall|id: i64|
            wanted(candidates, active, id) <==> exists|i: int|
                0 <= i < new_jobs(candidates, active).len() && (#[trigger] new_jobs(
                    candidates,
                    active,
                )[i]).paper_id == id,
{
    let keep = |c: EnrichmentCandidate| !active.contains(c.paper_id);
    let jobs = new_jobs(candidates, active);
    broadcast use vstd::seq_lib::group_filter_ensures;

    assert forall|id: i64| wanted(candidates, active, id) implies exists|i: int|
        0 <= i < jobs.len() && (#[trigger] jobs[i]).paper_id == id by {
        let i = choose|i: int|
            0 <= i < candidates.len() && (#[trigger] candidates[i]).paper_id == id;
        assert(keep(candidates[i]));
        assert(jobs.contains(candidates[i]));
        let k = jobs.index_of(candidates[i]);
        assert(jobs[k].paper_id == id);
    }
    assert forall|id: i64|
        (exists|i: int|
            0 <= i < jobs.len() && (#[trigger] jobs[i]).paper_id == id) implies wanted(
        candidates,
        active,
        id,
    ) by {
        let i = choose|i: int| 0 <= i < jobs.len() && (#[trigger] jobs[i]).paper_id == id;
        assert(keep(jobs[i]));
        lemma_filter_from(candidates, keep, i);
    }
}

proof fn lemma_filter_from(
    s: Seq<EnrichmentCandidate>,
    keep: spec_fn(EnrichmentCandidate) -> bool,
    i: int,
)
    requires
        0 <= i < s.filter(keep).len(),
    ensures
        exists|j: int| 0 <= j < s.len() && #[trigger] s[j] == s.filter(keep)[i],
    decreases s.len(),
{
    reveal(Seq::filter);
    if s.len() > 0 {
        if i < s.drop_last().filter(keep).len() {
            lemma_filter_from(s.drop_last(), keep, i);
            let j = choose|j: int|
                0 <= j < s.drop_last().len() && #[trigger] s.drop_last()[j] == s.drop_last().filter(
                    keep,
                )[i];
            assert(s[j] == s.filter(keep)[i]);
        } else {
            assert(s[s.len() - 1] == s.filter(keep)[i]);
        }
    }
}

fn keep_new(candidates: Vec<EnrichmentCandidate>, active: &Vec<i64>) -> (jobs: Vec<
    EnrichmentCandidate,
>)
    ensures
        jobs@ == new_jobs(candidates@, active@),
{
    let ghost all = candidates@;
    let ghost keep = |c: EnrichmentCandidate| !active@.contains(c.paper_id);
    let mut rest = candidates;
    let mut jobs: Vec<EnrichmentCandidate> = Vec::new();
    proof {
        reveal(Seq::filter);
        assert(all.take(0).filter(keep) =~= jobs@);
        assert(all.skip(0) =~= rest@);
    }
    let ghost mut n: int = 0;
    while rest.len() > 0
        invariant
            0 <= n <= all.len(),
            rest@ == all.skip(n),
            keep == (|c: EnrichmentCandidate| !active@.contains(c.paper_id)),
            jobs@ == all.take(n).filter(keep),
        decreases rest@.len(),
    {
        proof {
            reveal(Seq::filter);
            assert(all.take(n + 1).drop_last() =~= all.take(n));
            assert(rest@.remove(0) =~= all.skip(n + 1));
        }
        let c = rest.remove(0);
        proof {
            n = n + 1;
        }
        if !holds_id(active, c.paper_id) {
            jobs.push(c);
        }
    }
    assert(all.take(n) =~= all);
    jobs
}

fn settle_downloads(
    tasks: &mut Vec<DownloadTask>,
    jobs: &Vec<EnrichmentCandidate>,
    Ghost(candidates): Ghost<Seq<EnrichmentCandidate>>,
    Ghost(active): Ghost<Seq<i64>>,
) -> (files: Vec<(String, String)>)
    requires
        forall|id: i64|
            wanted(candidates, active, id) <==> exists|i: int|
                0 <= i < jobs@.len() && (#[trigger] jobs@[i]).paper_id == id,
    ensures
        final(tasks)@ == Seq::new(
            old(tasks)@.len(),
            |i: int|
                if settled(old(tasks)@[i], candidates, active) {
                    DownloadTask { status: DownloadStatus::Completed, ..old(tasks)@[i] }
                } else {
                    old(tasks)@[i]
                },
        ),
        pairs_view(files@) == settled_files(
            old(tasks)@,
            candidates,
            active,
            old(tasks)@.len() as int,
        ),
{
    let mut files: Vec<(String, String)> = Vec::new();
    assert(pairs_view(files@) =~= Seq::empty());
    let mut i: usize = 0;
    while i < tasks.len()
        invariant
            i <= tasks@.len() == old(tasks)@.len(),
            forall|id: i64|
                wanted(candidates, active, id) <==> exists|i: int|
                    0 <= i < jobs@.len() && (#[trigger] jobs@[i]).paper_id == id,
            forall|j: int| i <= j < tasks@.len() ==> tasks@[j] == old(tasks)@[j],
            forall|j: int|
                0 <= j < i ==> tasks@[j] == (if settled(old(tasks)@[j], candidates, active) {
                    DownloadTask { status: DownloadStatus::Completed, ..old(tasks)@[j] }
                } else {
                    old(tasks)@[j]
                }),
            pairs_view(files@) == settled_files(old(tasks)@, candidates, active, i as int),
        decreases tasks@.len() - i,
    {
        if matches!(tasks[i].status, DownloadStatus::ExtractingMetadata) {
            let needs: bool = match tasks[i].paper_id {
                Some(id) => is_wanted(jobs, id),
                None => false,
            };
            if !needs {
                tasks[i].status = DownloadStatus::Completed;
                match finalize_download_task(&tasks[i]) {
                    Some(pair) => {
                        let ghost before = files@;
                        files.push(pair);
                        assert(pairs_view(files@) =~= pairs_view(before).push((pair.0@, pair.1@)));
                    },
                    None => {},
                }
            }
        }
        i = i + 1;
    }
    assert(tasks@ =~= Seq::new(
        old(tasks)@.len(),
        |i: int|
            if settled(old(tasks)@[i], candidates, active) {
                DownloadTask { status: DownloadStatus::Completed, ..old(tasks)@[i] }
            } else {
                old(tasks)@[i]
            },
    ));
    files
}

proof fn lemma_task_of_paper(a: Seq<DownloadTask>, b: Seq<DownloadTask>, id: i64, i: int)
    requires
        a.len() == b.len(),
        forall|j: int| 0 <= j < a.len() ==> (#[trigger] a[j]).paper_id == b[j].paper_id,
        0 <= i,
    ensures
        task_of_paper(a, id, i) == task_of_paper(b, id, i),
        task_of_paper(a, id, i) matches Some(k) ==> i <= k < a.len() && a[k].paper_id == Some(id),
    decreases a.len() - i,
{
    if i < a.len() && a[i].paper_id != Some(id) {
        lemma_task_of_paper(a, b, id, i + 1);
    }
}

/// Whether download `i` is the first of one of the first `n` jobs.
spec fn first_of_job(
    tasks: Seq<DownloadTask>,
    jobs: Seq<EnrichmentCandidate>,
    n: int,
    i: int,
) -> bool {
    exists|k: int|
        0 <= k < n && task_of_paper(tasks, (#[trigger] jobs[k]).paper_id, 0) == Some(i)
}

fn mark_jobs(
    tasks: &mut Vec<DownloadTask>,
    active: &mut Vec<i64>,
    jobs: &Vec<EnrichmentCandidate>,
)
    ensures
        final(tasks)@ == Seq::new(
            old(tasks)@.len(),
            |i: int|
                if first_of_job(old(tasks)@, jobs@, jobs@.len() as int, i) {
                    DownloadTask { status: DownloadStatus::Enriching, ..old(tasks)@[i] }
                } else {
                    old(tasks)@[i]
                },
        ),
        forall|id: i64|
            final(active)@.contains(id) <==> old(active)@.contains(id) || exists|k: int|
                0 <= k < jobs@.len() && (#[trigger] jobs@[k]).paper_id == id,
        old(active)@.no_duplicates() ==> final(active)@.no_duplicates(),
{
    let mut n: usize = 0;
    while n < jobs.len()
        invariant
            n <= jobs@.len(),
            tasks@.len() == old(tasks)@.len(),
            forall|j: int|
                0 <= j < tasks@.len() ==> tasks@[j] == (if first_of_job(
                    old(tasks)@,
                    jobs@,
                    n as int,
                    j,
                ) {
                    DownloadTask { status: DownloadStatus::Enriching, ..old(tasks)@[j] }
                } else {
                    old(tasks)@[j]
                }),
            forall|id: i64|
                active@.contains(id) <==> old(active)@.contains(id) || exists|k: int|
                    0 <= k < n && (#[trigger] jobs@[k]).paper_id == id,
            old(active)@.no_duplicates() ==> active@.no_duplicates(),
        decreases jobs@.len() - n,
    {
        let id: i64 = jobs[n].paper_id;
        let ghost before = active@;
        if !holds_id(active, id) {
            active.push(id);
            assert(active@[before.len() as int] == id);
            assert forall|x: i64| active@.contains(x) <==> before.contains(x) || x == id by {
                if before.contains(x) {
                    let k = before.index_of(x);
                    assert(active@[k] == x);
                }
                if active@.contains(x) && x != id {
                    let k = active@.index_of(x);
                    assert(before[k] == x);
                }
            }
        }
        assert(active@.contains(id));
        proof {
            assert(jobs@[n as int].paper_id == id);
            assert forall|x: i64| active@.contains(x) <==> old(active)@.contains(x) || exists|k: int|
                0 <= k < n + 1 && (#[trigger] jobs@[k]).paper_id == x by {
                assert(active@.contains(x) <==> before.contains(x) || x == id);
                if active@.contains(x) && x != id && !old(active)@.contains(x) {
                    let k = choose|k: int| 0 <= k < n && (#[trigger] jobs@[k]).paper_id == x;
                    assert(jobs@[k].paper_id == x);
                }
            }
            lemma_task_of_paper(tasks@, old(tasks)@, id, 0);
            assert forall|j: int| first_of_job(old(tasks)@, jobs@, n + 1, j) == (first_of_job(
                old(tasks)@,
                jobs@,
                n as int,
                j,
            ) || task_of_paper(old(tasks)@, id, 0) == Some(j)) by {
                if first_of_job(old(tasks)@, jobs@, n + 1, j) {
                    let k = choose|k: int|
                        0 <= k < n + 1 && task_of_paper(
                            old(tasks)@,
                            (#[trigger] jobs@[k]).paper_id,
                            0,
                        ) == Some(j);
                    if k < n {
                        assert(first_of_job(old(tasks)@, jobs@, n as int, j));
                    }
                }
                if first_of_job(old(tasks)@, jobs@, n as int, j) {
                    let k = choose|k: int|
                        0 <= k < n && task_of_paper(
                            old(tasks)@,
                            (#[trigger] jobs@[k]).paper_id,
                            0,
                        ) == Some(j);
                    assert(task_of_paper(old(tasks)@, jobs@[k].paper_id, 0) == Some(j));
                }
            }
        }
        match find_task_of_paper(tasks, id) {
            Some(k) => {
                tasks[k].status = DownloadStatus::Enriching;
            },
            None => {},
        }
        n = n + 1;
    }
    assert(tasks@ =~= Seq::new(
        old(tasks)@.len(),
        |i: int|
            if first_of_job(old(tasks)@, jobs@, jobs@.len() as int, i) {
                DownloadTask { status: DownloadStatus::Enriching, ..old(tasks)@[i] }
            } else {
                old(tasks)@[i]
            },
    ));
}

/// Takes up the lookups that nobody has taken up yet.
pub fn spawn_enrichment_if_needed(
    app: &mut App,
    active: &mut Vec<i64>,
    candidates: Vec<EnrichmentCandidate>,
) -> (r: EnrichmentBatch)
    ensures
        r.jobs@ == new_jobs(candidates@, old(active)@),
        pairs_view(r.files@) == settled_files(
            old(app).downloads.tasks@,
            candidates@,
            old(active)@,
            old(app).downloads.tasks@.len() as int,
        ),
        forall|id: i64|
            final(active)@.contains(id) <==> old(active)@.contains(id) || wanted(
                candidates@,
                old(active)@,
                id,
            ),
        old(active)@.no_duplicates() ==> final(active)@.no_duplicates(),
        *final(app) == (App {
            downloads: DownloadsState { tasks: final(app).downloads.tasks, ..old(app).downloads },
            enrichment_pending: old(app).enrichment_pending || r.jobs@.len() > 0,
            ..*old(app)
        }),
        final(app).downloads.tasks@ == Seq::new(
            old(app).downloads.tasks@.len(),
            |i: int| after_spawn(old(app).downloads.tasks@, candidates@, old(active)@, i),
        ),
{
    let ghost all = candidates@;
    let ghost busy = active@;
    let ghost tasks = app.downloads.tasks@;
    let jobs = keep_new(candidates, active);
    proof {
        lemma_jobs(all, busy);
    }
    let files = settle_downloads(&mut app.downloads.tasks, &jobs, Ghost(all), Ghost(busy));
    let ghost mid = app.downloads.tasks@;
    mark_jobs(&mut app.downloads.tasks, active, &jobs);
    if jobs.len() > 0 {
        app.enrichment_pending = true;
    }
    proof {
        assert forall|i: int| 0 <= i < tasks.len() implies #[trigger] app.downloads.tasks@[i]
            == after_spawn(tasks, all, busy, i) by {
            if let Some(id) = tasks[i].paper_id {
                lemma_task_of_paper(mid, tasks, id, 0);
                if wanted(all, busy, id) && task_of_paper(tasks, id, 0) == Some(i) {
                    let k = choose|k: int|
                        0 <= k < jobs@.len() && (#[trigger] jobs@[k]).paper_id == id;
                    assert(task_of_paper(mid, jobs@[k].paper_id, 0) == Some(i));
                    assert(first_of_job(mid, jobs@, jobs@.len() as int, i));
                }
            }
            if first_of_job(mid, jobs@, jobs@.len() as int, i) {
                let k = choose|k: int|
                    0 <= k < jobs@.len() && task_of_paper(mid, (#[trigger] jobs@[k]).paper_id, 0)
                        == Some(i);
                lemma_task_of_paper(mid, tasks, jobs@[k].paper_id, 0);
                assert(tasks[i].paper_id == Some(jobs@[k].paper_id));
                assert(wanted(all, busy, jobs@[k].paper_id));
            }
        }
        assert(app.downloads.tasks@ =~= Seq::new(
            tasks.len(),
            |i: int| after_spawn(tasks, all, busy, i),
        ));
    }
    EnrichmentBatch { jobs, files }
}

/// Position of the first occurrence of `p` in `s`.
#[verifier::opaque]
pub open spec fn first_at(s: Seq<char>, p: Seq<char>) -> Option<int> {
    if exists|i: int| occurs_at(s, p, i) {
        Some(choose|i: int| occurs_at(s, p, i) && forall|j: int| 0 <= j < i ==> !occurs_at(s, p, j))
    } else {
        None
    }
}

/// End of the run of digits and dots that starts at `k`.
pub open spec fn number_end(s: Seq<char>, k: int) -> int
    decreases s.len() - k,
{
    if 0 <= k < s.len() && (digit(s[k]) || s[k] == '.') {
        number_end(s, k + 1)
    } else {
        k
    }
}

/// The next white space from `k` on, or the end.
pub open spec fn word_end(s: Seq<char>, k: int) -> int
    decreases s.len() - k,
{
    if 0 <= k < s.len() && !whitespace(s[k]) {
        word_end(s, k + 1)
    } else {
        k
    }
}

/// `s` without closing punctuation at its end.
pub open spec fn without_punctuation(s: Seq<char>) -> Seq<char>
    decreases s.len(),
{
    if s.len() > 0 && (s.last() == '.' || s.last() == ',' || s.last() == ';' || s.last() == ')') {
        without_punctuation(s.drop_last())
    } else {
        s
    }
}

/// Byte behind the first mark of an identifier. It is counted in the text in
/// lower case, which need not be as long as the text.
pub open spec fn mark_at(lowered: Seq<char>, mark: Seq<char>, behind: int) -> Option<int> {
    match first_at(lowered, mark) {
        Some(i) => Some(offset(lowered, i) + behind),
        None => None,
    }
}

/// The identifier that an article of arXiv carries in its text.
pub open spec fn arxiv_id_at(text: Seq<char>, b: int) -> Option<Seq<char>> {
    let k = index_at(text, b);
    let id = text.subrange(k, number_end(text, k));
    if id.len() >= 7 {
        Some(id)
    } else {
        None
    }
}

/// The DOI that an article carries in its text.
pub open spec fn doi_at(text: Seq<char>, b: int) -> Option<Seq<char>> {
    let k = index_at(text, b);
    let id = without_punctuation(text.subrange(k, word_end(text, k)));
    if byte_len(id) >= 5 {
        Some(id)
    } else {
        None
    }
}

fn find_first(s: &Vec<char>, p: &Vec<char>) -> (r: Option<usize>)
    ensures
        r is Some <==> first_at(s@, p@) is Some,
        r matches Some(i) ==> first_at(s@, p@) == Some(i as int) && i + p@.len() <= s@.len(),
{
    let r = find_from(s, p, 0);
    proof {
        reveal(first_at);
        match r {
            Some(i) => {
                assert(occurs_at(s@, p@, i as int));
                let j = choose|j: int|
                    occurs_at(s@, p@, j) && forall|l: int| 0 <= l < j ==> !occurs_at(s@, p@, l);
                assert(occurs_at(s@, p@, i as int) && forall|l: int|
                    0 <= l < i ==> !occurs_at(s@, p@, l));
            },
            None => {
                assert forall|i: int| !occurs_at(s@, p@, i) by {}
            },
        }
    }
    r
}

/// The identifiers in the text of an article: of arXiv, and a DOI, each looked
/// for only where it is not known. There is no answer where a mark found in the
/// text in lower case does not fall between two characters of the text.
pub open spec fn identifiers(
    text: Seq<char>,
    lowered: Seq<char>,
    arxiv: Option<Seq<char>>,
    doi: Option<Seq<char>>,
) -> Option<(Option<Seq<char>>, Option<Seq<char>>)> {
    let a = mark_at(lowered, "arxiv:"@, 6);
    let d = mark_at(lowered, "10."@, 0);
    if arxiv is None && (a matches Some(b) && !is_boundary(text, b)) {
        None
    } else if doi is None && (d matches Some(b) && !is_boundary(text, b)) {
        None
    } else {
        Some(
            (
                if arxiv is None && a is Some {
                    arxiv_id_at(text, a->0)
                } else {
                    arxiv
                },
                if doi is None && d is Some {
                    doi_at(text, d->0)
                } else {
                    doi
                },
            ),
        )
    }
}

fn read_arxiv_id(text: &Vec<char>, from: usize) -> (r: Option<String>)
    requires
        from <= text@.len(),
    ensures
        ({
            let id = text@.subrange(from as int, number_end(text@, from as int));
            opt_text(r) == (if id.len() >= 7 {
                Some(id)
            } else {
                None
            })
        }),
{
    let mut k: usize = from;
    while k < text.len() && (is_digit(text[k]) || text[k] == '.')
        invariant
            from <= k <= text@.len(),
            number_end(text@, from as int) == number_end(text@, k as int),
        decreases text@.len() - k,
    {
        k = k + 1;
    }
    if k - from >= 7 {
        Some(from_range(text, from, k))
    } else {
        None
    }
}

fn read_doi(text: &Vec<char>, from: usize) -> (r: Option<String>)
    requires
        from <= text@.len(),
    ensures
        ({
            let id = without_punctuation(
                text@.subrange(from as int, word_end(text@, from as int)),
            );
            opt_text(r) == (if byte_len(id) >= 5 {
                Some(id)
            } else {
                None
            })
        }),
{
    let mut k: usize = from;
    while k < text.len() && !is_whitespace(text[k])
        invariant
            from <= k <= text@.len(),
            word_end(text@, from as int) == word_end(text@, k as int),
        decreases text@.len() - k,
    {
        k = k + 1;
    }
    let ghost word = text@.subrange(from as int, k as int);
    while k > from && (text[k - 1] == '.' || text[k - 1] == ',' || text[k - 1] == ';' || text[k - 1]
        == ')')
        invariant
            from <= k <= text@.len(),
            without_punctuation(word) == without_punctuation(
                text@.subrange(from as int, k as int),
            ),
        decreases k,
    {
        assert(text@.subrange(from as int, k as int).drop_last() =~= text@.subrange(
            from as int,
            k - 1,
        ));
        k = k - 1;
    }
    let id = from_range(text, from, k);
    if text_len(id.as_str()) >= 5 {
        Some(id)
    } else {
        None
    }
}

/// The character of the text behind the first mark of an identifier, where there
/// is a mark; an error where that is not between two characters.
fn find_mark(chars: &Vec<char>, low: &Vec<char>, mark: &str, behind: usize) -> (r: Result<
    Option<usize>,
    (),
>)
    requires
        behind <= mark@.len(),
        byte_len(low@) <= usize::MAX,
        byte_len(chars@) <= usize::MAX,
    ensures
        match mark_at(low@, mark@, behind as int) {
            None => r matches Ok(k) && k is None,
            Some(b) => if is_boundary(chars@, b) {
                r matches Ok(Some(k)) && k == index_at(chars@, b) && k <= chars@.len()
            } else {
                r is Err
            },
        },
{
    let p = to_chars(mark);
    match find_first(low, &p) {
        Some(i) => {
            proof {
                crate::text::lemma_offset_mono(low@, i as int, i + p@.len());
                crate::text::lemma_offset_mono(low@, i + p@.len(), low@.len() as int);
                crate::text::lemma_offset_ends(low@);
            }
            let b: usize = byte_offset(low, i);
            match char_index(chars, b + behind) {
                Some(k) => {
                    proof {
                        crate::text::lemma_boundary(chars@, b + behind);
                    }
                    Ok(Some(k))
                },
                None => Err(()),
            }
        },
        None => Ok(None),
    }
}

/// The identifiers in the text of an article, the text in lower case being given.
pub fn read_identifiers(
    text: &str,
    lowered: &str,
    arxiv: Option<String>,
    doi: Option<String>,
) -> (r: Option<(Option<String>, Option<String>)>)
    ensures
        match identifiers(text@, lowered@, opt_text(arxiv), opt_text(doi)) {
            Some(ids) => r matches Some(s) && opt_text(s.0) == ids.0 && opt_text(s.1) == ids.1,
            None => r is None,
        },
{
    let chars = to_chars(text);
    let low = to_chars(lowered);
    proof {
        reveal_strlit("arxiv:");
    }
    let start: Option<usize> = if arxiv.is_none() {
        match find_mark(&chars, &low, "arxiv:", 6) {
            Ok(k) => k,
            Err(_) => return None,
        }
    } else {
        None
    };
    let word: Option<usize> = if doi.is_none() {
        match find_mark(&chars, &low, "10.", 0) {
            Ok(k) => k,
            Err(_) => return None,
        }
    } else {
        None
    };
    let a: Option<String> = match start {
        Some(k) => read_arxiv_id(&chars, k),
        None => arxiv,
    };
    let d: Option<String> = match word {
        Some(k) => read_doi(&chars, k),
        None => doi,
    };
    Some((a, d))
}

/// The identifiers in the text of an article.
pub fn find_identifiers(text: &str, arxiv: Option<String>, doi: Option<String>) -> (r: Option<
    (Option<String>, Option<String>),
>)
    ensures
        match identifiers(text@, lower(text@), opt_text(arxiv), opt_text(doi)) {
            Some(ids) => r matches Some(s) && opt_text(s.0) == ids.0 && opt_text(s.1) == ids.1,
            None => r is None,
        },
{
    let lowered = to_lower(text);
    read_identifiers(text, lowered.as_str(), arxiv, doi)
}

/// What a lookup asks next, or what it has found.
#[derive(Debug)]
pub enum Lookup {
    /// Ask Crossref for the paper with a DOI.
    Crossref { doi: String, arxiv_id: Option<String> },
    /// Ask OpenAlex for the journal of a paper that Crossref knows without one.
    JournalOf { doi: String, paper: RemotePaper },
    /// Ask OpenAlex for the journal of a paper that Crossref does not know or,
    /// where `failed`, could not be asked for.
    Journal { doi: String, arxiv_id: Option<String>, failed: bool },
    /// Ask arXiv for an article.
    Arxiv { id: String },
    Done(EnrichmentOutcome),
}

/// How many questions a lookup still asks at most. Every answer leaves fewer of
/// them, so a lookup ends.
pub open spec fn questions_left(l: Lookup) -> nat {
    match l {
        Lookup::Crossref { .. } => 3,
        Lookup::Journal { .. } => 2,
        Lookup::JournalOf { .. } => 1,
        Lookup::Arxiv { .. } => 1,
        Lookup::Done(_) => 0,
    }
}

/// The first question of a lookup: by DOI where one is known, else by the
/// identifier of arXiv.
pub open spec fn first_question(arxiv_id: Option<String>, doi: Option<String>) -> Lookup {
    match doi {
        Some(d) => Lookup::Crossref { doi: d, arxiv_id },
        None => match arxiv_id {
            Some(id) => Lookup::Arxiv { id },
            None => Lookup::Done(EnrichmentOutcome::Unavailable),
        },
    }
}

/// What follows an answer of Crossref.
pub open spec fn after_crossref(
    doi: String,
    arxiv_id: Option<String>,
    answer: Result<Option<RemotePaper>, String>,
) -> Lookup {
    match answer {
        Ok(Some(paper)) => if paper.journal_ref is None {
            Lookup::JournalOf { doi, paper }
        } else {
            Lookup::Done(EnrichmentOutcome::Success(paper))
        },
        Ok(None) => Lookup::Journal { doi, arxiv_id, failed: false },
        Err(_) => Lookup::Journal { doi, arxiv_id, failed: true },
    }
}

/// What follows an answer of OpenAlex about a paper that Crossref knows.
pub open spec fn after_journal_of(paper: RemotePaper, answer: Result<Option<String>, String>) -> Lookup {
    Lookup::Done(
        EnrichmentOutcome::Success(
            match answer {
                Ok(Some(journal)) => RemotePaper { journal_ref: Some(journal), ..paper },
                _ => paper,
            },
        ),
    )
}

/// What follows an answer of OpenAlex about a paper that Crossref did not give.
pub open spec fn after_journal(
    arxiv_id: Option<String>,
    failed: bool,
    answer: Result<Option<String>, String>,
) -> Lookup {
    match answer {
        Ok(Some(journal)) => Lookup::Done(EnrichmentOutcome::Journal(journal)),
        _ => if failed {
            Lookup::Done(EnrichmentOutcome::Failed)
        } else {
            match arxiv_id {
                Some(id) => Lookup::Arxiv { id },
                None => Lookup::Done(EnrichmentOutcome::Unavailable),
            }
        },
    }
}

/// What follows an answer of arXiv.
pub open spec fn after_arxiv(answer: Result<Option<RemotePaper>, String>) -> Lookup {
    Lookup::Done(
        match answer {
            Ok(Some(paper)) => EnrichmentOutcome::Success(paper),
            Ok(None) => EnrichmentOutcome::Unavailable,
            Err(_) => EnrichmentOutcome::Failed,
        },
    )
}

/// What a lookup asks next once its question has been answered, by the answers of Crossref,
/// OpenAlex and arXiv.
pub open spec fn answered(
    l: Lookup,
    crossref: Result<Option<RemotePaper>, String>,
    journal: Result<Option<String>, String>,
    arxiv: Result<Option<RemotePaper>, String>,
) -> Lookup {
    match l {
        Lookup::Crossref { doi, arxiv_id } => after_crossref(doi, arxiv_id, crossref),
        Lookup::JournalOf { doi, paper } => after_journal_of(paper, journal),
        Lookup::Journal { doi, arxiv_id, failed } => after_journal(arxiv_id, failed, journal),
        Lookup::Arxiv { id } => after_arxiv(arxiv),
        Lookup::Done(outcome) => l,
    }
}

/// What becomes of a lookup, whatever the catalogues answer. A DOI is looked up at
/// Crossref; what Crossref knows is the result, with the journal of OpenAlex where
/// Crossref has none. What Crossref does not know, or could not be asked, may still have
/// a journal at OpenAlex. Only a paper that neither of them knows is looked up at arXiv,
/// as is one without a DOI.
pub proof fn lemma_lookup_outcome(
    arxiv_id: Option<String>,
    doi: Option<String>,
    crossref: Result<Option<RemotePaper>, String>,
    journal: Result<Option<String>, String>,
    arxiv: Result<Option<RemotePaper>, String>,
)
    ensures
        ({
            let l1 = first_question(arxiv_id, doi);
            let l2 = answered(l1, crossref, journal, arxiv);
            let l3 = answered(l2, crossref, journal, arxiv);
            let l4 = answered(l3, crossref, journal, arxiv);
            let known = crossref is Ok && crossref->Ok_0 is Some;
            let named = journal is Ok && journal->Ok_0 is Some;
            let at_arxiv = if arxiv_id is None {
                EnrichmentOutcome::Unavailable
            } else if arxiv is Err {
                EnrichmentOutcome::Failed
            } else if arxiv->Ok_0 is Some {
                EnrichmentOutcome::Success(arxiv->Ok_0->0)
            } else {
                EnrichmentOutcome::Unavailable
            };
            &&& l4 is Done
            &&& doi is None ==> l4->Done_0 == at_arxiv
            &&& doi is Some ==> l1 == (Lookup::Crossref { doi: doi->0, arxiv_id })
            &&& doi is Some && known ==> {
                let paper = crossref->Ok_0->0;
                &&& l4->Done_0 is Success
                &&& l4->Done_0->Success_0 == (RemotePaper {
                    journal_ref: l4->Done_0->Success_0.journal_ref,
                    ..paper
                })
                &&& paper.journal_ref is Some ==> l4->Done_0->Success_0.journal_ref
                    == paper.journal_ref
                &&& paper.journal_ref is None && named ==> l4->Done_0->Success_0.journal_ref
                    == journal->Ok_0
                &&& paper.journal_ref is None && !named ==> l4->Done_0->Success_0.journal_ref
                    is None
            }
            &&& doi is Some && !known && named ==> l4->Done_0 == EnrichmentOutcome::Journal(
                journal->Ok_0->0,
            )
            &&& doi is Some && crossref is Err && !named ==> l4->Done_0 is Failed
            &&& doi is Some && crossref is Ok && !known && !named ==> l4->Done_0 == at_arxiv
        }),
{
}

/// The first question of a lookup.
pub fn start_lookup(arxiv_id: Option<String>, doi: Option<String>) -> (r: Lookup)
    ensures
        r == first_question(arxiv_id, doi),
{
    match doi {
        Some(doi) => Lookup::Crossref { doi, arxiv_id },
        None => match arxiv_id {
            Some(id) => Lookup::Arxiv { id },
            None => Lookup::Done(EnrichmentOutcome::Unavailable),
        },
    }
}

/// What follows an answer of Crossref.
pub fn crossref_answered(
    doi: String,
    arxiv_id: Option<String>,
    answer: Result<Option<RemotePaper>, String>,
) -> (r: Lookup)
    ensures
        r == after_crossref(doi, arxiv_id, answer),
        questions_left(r) < questions_left(Lookup::Crossref { doi, arxiv_id }),
{
    match answer {
        Ok(Some(paper)) => {
            if paper.journal_ref.is_none() {
                Lookup::JournalOf { doi, paper }
            } else {
                Lookup::Done(EnrichmentOutcome::Success(paper))
            }
        },
        Ok(None) => Lookup::Journal { doi, arxiv_id, failed: false },
        Err(_) => Lookup::Journal { doi, arxiv_id, failed: true },
    }
}

/// What follows an answer of OpenAlex about a paper that Crossref knows.
pub fn journal_of_answered(paper: RemotePaper, answer: Result<Option<String>, String>) -> (r: Lookup)
    ensures
        r == after_journal_of(paper, answer),
        forall|doi: String| questions_left(r) < #[trigger] questions_left(
            (Lookup::JournalOf { doi, paper }),
        ),
{
    let mut paper = paper;
    match answer {
        Ok(Some(journal)) => {
            paper.journal_ref = Some(journal);
        },
        _ => {},
    }
    Lookup::Done(EnrichmentOutcome::Success(paper))
}

/// What follows an answer of OpenAlex about a paper that Crossref did not give.
pub fn journal_answered(
    arxiv_id: Option<String>,
    failed: bool,
    answer: Result<Option<String>, String>,
) -> (r: Lookup)
    ensures
        r == after_journal(arxiv_id, failed, answer),
        forall|doi: String| questions_left(r) < #[trigger] questions_left(
            (Lookup::Journal { doi, arxiv_id, failed }),
        ),
{
    match answer {
        Ok(Some(journal)) => Lookup::Done(EnrichmentOutcome::Journal(journal)),
        _ => {
            if failed {
                Lookup::Done(EnrichmentOutcome::Failed)
            } else {
                match arxiv_id {
                    Some(id) => Lookup::Arxiv { id },
                    None => Lookup::Done(EnrichmentOutcome::Unavailable),
                }
            }
        },
    }
}

/// What follows an answer of arXiv.
pub fn arxiv_answered(answer: Result<Option<RemotePaper>, String>) -> (r: Lookup)
    ensures
        r == after_arxiv(answer),
        forall|id: String| questions_left(r) < #[trigger] questions_left((Lookup::Arxiv { id })),
{
    match answer {
        Ok(Some(paper)) => Lookup::Done(EnrichmentOutcome::Success(paper)),
        Ok(None) => Lookup::Done(EnrichmentOutcome::Unavailable),
        Err(_) => Lookup::Done(EnrichmentOutcome::Failed),
    }
}

/// A paper that is shown, with what has been found of it. An abstract is not lost
/// to a catalogue that has none.
pub open spec fn merged(current: RemotePaperView, enriched: RemotePaperView) -> RemotePaperView {
    if trimmed(enriched.abstract_text).len() == 0 {
        RemotePaperView { abstract_text: current.abstract_text, ..enriched }
    } else {
        enriched
    }
}

/// A paper that is shown, with what has been found of it.
pub fn merge_enriched_remote_paper(current: &RemotePaper, enriched: &RemotePaper) -> (r:
    RemotePaper)
    ensures
        r@ == merged(current@, enriched@),
        r@ == (RemotePaperView { abstract_text: r@.abstract_text, ..enriched@ }),
        (exists|i: int|
            0 <= i < enriched.abstract_text@.len() && !whitespace(
                #[trigger] enriched.abstract_text@[i],
            )) ==> r.abstract_text@ == enriched.abstract_text@,
        (forall|i: int|
            0 <= i < enriched.abstract_text@.len() ==> whitespace(
                #[trigger] enriched.abstract_text@[i],
            )) ==> r.abstract_text@ == current.abstract_text@,
{
    proof {
        crate::strings::lemma_blank(enriched.abstract_text@);
    }
    let mut r = enriched.copy();
    if is_blank(r.abstract_text.as_str()) {
        r.abstract_text = current.abstract_text.clone();
    }
    r
}

/// Whether two descriptions are of the same paper.
pub open spec fn same_paper(shown: RemotePaperView, found: RemotePaperView) -> bool {
    shown.id == found.id || (found.doi is Some && shown.doi == found.doi)
}

/// Papers that are shown, with what has been found of one of them.
pub open spec fn all_merged(papers: Seq<RemotePaperView>, found: RemotePaperView) -> Seq<
    RemotePaperView,
> {
    Seq::new(
        papers.len(),
        |i: int|
            if same_paper(papers[i], found) {
                merged(papers[i], found)
            } else {
                papers[i]
            },
    )
}

/// Completes the papers that are shown with what has been found of one of them.
pub fn merge_into(papers: &mut Vec<RemotePaper>, found: &RemotePaper)
    ensures
        papers_view(final(papers)@) == all_merged(papers_view(old(papers)@), found@),
{
    let n: usize = papers.len();
    let mut i: usize = 0;
    while i < n
        invariant
            i <= n == papers@.len() == old(papers)@.len(),
            forall|j: int| i <= j < n ==> papers@[j] == old(papers)@[j],
            forall|j: int|
                0 <= j < i ==> (#[trigger] papers@[j])@ == all_merged(
                    papers_view(old(papers)@),
                    found@,
                )[j],
        decreases n - i,
    {
        let same_doi: bool = match (&found.doi, &papers[i].doi) {
            (Some(a), Some(b)) => same_text(a.as_str(), b.as_str()),
            _ => false,
        };
        if same_text(papers[i].id.as_str(), found.id.as_str()) || same_doi {
            let m = merge_enriched_remote_paper(&papers[i], found);
            papers.set(i, m);
        }
        i = i + 1;
    }
    assert(papers_view(papers@) =~= all_merged(papers_view(old(papers)@), found@));
}

/// A description that was found replaces the one that was shown in everything. Only an
/// abstract that is nothing but white space does not: then the shown one stays.
pub proof fn lemma_found_replaces_shown(current: RemotePaperView, found: RemotePaperView)
    ensures
        ({
            let m = merged(current, found);
            &&& m.id == found.id && m.title == found.title && m.authors == found.authors
            &&& m.published == found.published && m.updated == found.updated
            &&& m.categories == found.categories && m.pdf_url == found.pdf_url
            &&& m.doi == found.doi && m.journal_ref == found.journal_ref
            &&& (exists|i: int|
                0 <= i < found.abstract_text.len() && !whitespace(
                    #[trigger] found.abstract_text[i],
                )) ==> m.abstract_text == found.abstract_text
            &&& (forall|i: int|
                0 <= i < found.abstract_text.len() ==> whitespace(
                    #[trigger] found.abstract_text[i],
                )) ==> m.abstract_text == current.abstract_text
        }),
{
    crate::strings::lemma_blank(found.abstract_text);
}

/// What was found of a paper goes to every shown paper with its identifier or its DOI,
/// and to no other. A paper that has an abstract never loses it to one without.
pub proof fn lemma_found_goes_to_its_paper(
    papers: Seq<RemotePaperView>,
    found: RemotePaperView,
    i: int,
)
    requires
        0 <= i < papers.len(),
    ensures
        ({
            let now = all_merged(papers, found);
            let shown = papers[i];
            let meant = shown.id == found.id || (found.doi is Some && shown.doi is Some
                && shown.doi->0 == found.doi->0);
            &&& now.len() == papers.len()
            &&& !meant ==> now[i] == shown
            &&& meant ==> now[i].id == found.id && now[i].title == found.title && now[i].authors
                == found.authors && now[i].doi == found.doi && now[i].journal_ref
                == found.journal_ref && now[i].pdf_url == found.pdf_url && now[i].categories
                == found.categories && now[i].published == found.published && now[i].updated
                == found.updated
            &&& meant ==> (now[i].abstract_text == found.abstract_text || now[i].abstract_text
                == shown.abstract_text)
            &&& meant && (exists|k: int|
                0 <= k < found.abstract_text.len() && !whitespace(
                    #[trigger] found.abstract_text[k],
                )) ==> now[i].abstract_text == found.abstract_text
            &&& (exists|k: int|
                0 <= k < shown.abstract_text.len() && !whitespace(
                    #[trigger] shown.abstract_text[k],
                )) ==> exists|k: int|
                0 <= k < now[i].abstract_text.len() && !whitespace(
                    #[trigger] now[i].abstract_text[k],
                )
        }),
{
    crate::strings::lemma_blank(found.abstract_text);
    lemma_found_replaces_shown(papers[i], found);
}

/// Completing papers twice with the same description is completing them once.
pub proof fn lemma_merge_settles(papers: Seq<RemotePaperView>, found: RemotePaperView)
    ensures
        all_merged(all_merged(papers, found), found) == all_merged(papers, found),
{
    assert(all_merged(all_merged(papers, found), found) =~= all_merged(papers, found));
}

/// Notes what has been found of a paper: papers that are shown are completed, the
/// lookup is over, and the download of the paper is complete. Gives the
/// temporary file of that download, and the name that it takes.
pub fn apply_enrichment(
    app: &mut App,
    active: &mut Vec<i64>,
    paper_id: i64,
    outcome: &EnrichmentOutcome,
) -> (r: Option<(String, String)>)
    ensures
        *final(app) == (App {
            today: TodayState { papers: final(app).today.papers, ..old(app).today },
            discovery: DiscoveryState { results: final(app).discovery.results, ..old(app).discovery },
            downloads: DownloadsState { tasks: final(app).downloads.tasks, ..old(app).downloads },
            ..*old(app)
        }),
        match *outcome {
            EnrichmentOutcome::Success(found) => {
                &&& papers_view(final(app).today.papers@) == all_merged(
                    papers_view(old(app).today.papers@),
                    found@,
                )
                &&& papers_view(final(app).discovery.results@) == all_merged(
                    papers_view(old(app).discovery.results@),
                    found@,
                )
            },
            _ => final(app).today == old(app).today && final(app).discovery == old(app).discovery,
        },
        forall|id: i64|
            final(active)@.contains(id) <==> old(active)@.contains(id) && id != paper_id,
        match task_of_paper(old(app).downloads.tasks@, paper_id, 0) {
            None => r is None && final(app).downloads.tasks@ == old(app).downloads.tasks@,
            Some(k) => {
                let task = old(app).downloads.tasks@[k];
                &&& final(app).downloads.tasks@ == old(app).downloads.tasks@.update(
                    k,
                    DownloadTask { status: DownloadStatus::Completed, ..task },
                )
                &&& match task.pdf_path {
                    Some(path) => r matches Some(p) && p.0@ == with_extension(path@, "pdf.part"@)
                        && p.1@ == path@,
                    None => r is None,
                }
            },
        },
{
    match outcome {
        EnrichmentOutcome::Success(found) => {
            merge_into(&mut app.today.papers, found);
            merge_into(&mut app.discovery.results, found);
        },
        _ => {},
    }
    drop_id(active, paper_id);
    match find_task_of_paper(&app.downloads.tasks, paper_id) {
        Some(k) => {
            app.downloads.tasks[k].status = DownloadStatus::Completed;
            finalize_download_task(&app.downloads.tasks[k])
        },
        None => None,
    }
}

fn drop_id(ids: &mut Vec<i64>, id: i64)
    ensures
        forall|x: i64| final(ids)@.contains(x) <==> old(ids)@.contains(x) && x != id,
{
    let mut i: usize = 0;
    while i < ids.len()
        invariant
            i <= ids@.len(),
            forall|j: int| 0 <= j < i ==> ids@[j] != id,
            forall|x: i64| x != id ==> (ids@.contains(x) <==> old(ids)@.contains(x)),
        decreases ids@.len() - i,
    {
        if ids[i] == id {
            let ghost before = ids@;
            let _ = ids.remove(i);
            proof {
                assert forall|x: i64| x != id implies (ids@.contains(x) <==> old(ids)@.contains(
                    x,
                )) by {
                    if before.contains(x) {
                        let k = before.index_of(x);
                        if k < i {
                            assert(ids@[k] == x);
                        } else {
                            assert(ids@[k - 1] == x);
                        }
                    }
                    if ids@.contains(x) {
                        let k = ids@.index_of(x);
                        if k < i {
                            assert(before[k] == x);
                        } else {
                            assert(before[k + 1] == x);
                        }
                    }
                }
                assert forall|j: int| 0 <= j < i implies ids@[j] != id by {
                    assert(ids@[j] == before[j]);
                }
            }
        } else {
            i = i + 1;
        }
    }
}

/// Starts looking through the library folders, unless that is under way. A silent
/// scan is not shown.
pub fn start_scan(library: &mut LibraryState, silent: bool) -> (started: bool)
    ensures
        started == !old(library).indexing,
        if !started {
            *final(library) == *old(library)
        } else if silent {
            *final(library) == *old(library)
        } else {
            &&& *final(library) == (LibraryState {
                indexing: true,
                message: final(library).message,
                ..*old(library)
            })
            &&& opt_text(final(library).message) == Some("Indexing library folders..."@)
        },
{
    if library.indexing {
        return false;
    }
    library.indexing = !silent;
    if !silent {
        library.message = Some("Indexing library folders...".to_owned());
    }
    true
}

/// Notes the end of a scan.
pub fn scan_finished(library: &mut LibraryState, found: u64, imported: u64)
    ensures
        *final(library) == (LibraryState {
            indexing: false,
            message: final(library).message,
            ..*old(library)
        }),
        opt_text(final(library).message) == Some(
            "Indexed "@ + decimal(found as nat) + " PDFs, imported "@ + decimal(imported as nat)
                + " new"@,
        ),
{
    library.indexing = false;
    let a = concat("Indexed ", to_decimal(found).as_str());
    let b = concat(a.as_str(), " PDFs, imported ");
    let c = concat(b.as_str(), to_decimal(imported).as_str());
    library.message = Some(concat(c.as_str(), " new"));
}

/// Notes that one file has been indexed.
pub fn file_indexed(library: &mut LibraryState, imported: bool, title: &str)
    ensures
        *final(library) == (LibraryState { message: final(library).message, ..*old(library) }),
        opt_text(final(library).message) == Some(
            if imported {
                "Imported "@ + title@
            } else {
                "Ignored duplicate PDF"@
            },
        ),
{
    library.message = Some(
        if imported {
            concat("Imported ", title)
        } else {
            "Ignored duplicate PDF".to_owned()
        },
    );
}

// ---------------------------------------------------------------------------
// What holds of all texts
// ---------------------------------------------------------------------------

proof fn lemma_first_at(s: Seq<char>, p: Seq<char>, k: int)
    requires
        occurs_at(s, p, k),
        forall|j: int| 0 <= j < k ==> !occurs_at(s, p, j),
    ensures
        first_at(s, p) == Some(k),
{
    reveal(first_at);
    let i = choose|i: int| occurs_at(s, p, i) && forall|j: int| 0 <= j < i ==> !occurs_at(s, p, j);
    assert(occurs_at(s, p, k) && forall|j: int| 0 <= j < k ==> !occurs_at(s, p, j));
    if i < k {
        assert(!occurs_at(s, p, i));
    }
}

proof fn lemma_number_end(s: Seq<char>, k: int, e: int)
    requires
        0 <= k <= e <= s.len(),
        forall|i: int| k <= i < e ==> ('0' <= #[trigger] s[i] <= '9') || s[i] == '.',
        e < s.len() ==> !('0' <= s[e] <= '9') && s[e] != '.',
    ensures
        number_end(s, k) == e,
    decreases e - k,
{
    if k < e {
        lemma_number_end(s, k + 1, e);
    }
}

proof fn lemma_word_end(s: Seq<char>, k: int, e: int)
    requires
        0 <= k <= e <= s.len(),
        forall|i: int| k <= i < e ==> !whitespace(#[trigger] s[i]),
        e < s.len() ==> whitespace(s[e]),
    ensures
        word_end(s, k) == e,
    decreases e - k,
{
    if k < e {
        lemma_word_end(s, k + 1, e);
    }
}

proof fn lemma_without_punctuation(id: Seq<char>, marks: Seq<char>)
    requires
        forall|i: int|
            0 <= i < marks.len() ==> #[trigger] marks[i] == '.' || marks[i] == ',' || marks[i] == ';'
                || marks[i] == ')',
        id.len() > 0 ==> id.last() != '.' && id.last() != ',' && id.last() != ';' && id.last() != ')',
    ensures
        without_punctuation(id + marks) == id,
    decreases marks.len(),
{
    let s = id + marks;
    if marks.len() > 0 {
        assert(s.last() == marks.last());
        assert(s.drop_last() =~= id + marks.drop_last());
        assert forall|i: int| 0 <= i < marks.drop_last().len() implies #[trigger] marks.drop_last()[i]
            == '.' || marks.drop_last()[i] == ',' || marks.drop_last()[i] == ';'
            || marks.drop_last()[i] == ')' by {
            assert(marks.drop_last()[i] == marks[i]);
        }
        lemma_without_punctuation(id, marks.drop_last());
    } else {
        assert(s =~= id);
    }
}

/// The identifier of arXiv that a text carries is the run of digits and dots behind its
/// first mark, where that is long enough to be one. The mark is found without regard to
/// case, in the text in lower case, of which as much stands before it.
pub proof fn lemma_arxiv_mark_is_read(
    before: Seq<char>,
    mark: Seq<char>,
    id: Seq<char>,
    behind: Seq<char>,
    low_before: Seq<char>,
    low_behind: Seq<char>,
    doi: Seq<char>,
)
    requires
        byte_len(before) == byte_len(low_before),
        byte_len(mark) == 6,
        forall|i: int| 0 <= i < id.len() ==> ('0' <= #[trigger] id[i] <= '9') || id[i] == '.',
        behind.len() > 0 ==> !('0' <= behind[0] <= '9') && behind[0] != '.',
        forall|j: int|
            0 <= j < low_before.len() ==> !occurs_at(
                low_before + "arxiv:"@ + low_behind,
                "arxiv:"@,
                j,
            ),
    ensures
        identifiers(
            before + mark + id + behind,
            low_before + "arxiv:"@ + low_behind,
            None,
            Some(doi),
        ) == Some(
            (
                if id.len() >= 7 {
                    Some(id)
                } else {
                    None
                },
                Some(doi),
            ),
        ),
{
    reveal_strlit("arxiv:");
    let text = before + mark + id + behind;
    let lowered = low_before + "arxiv:"@ + low_behind;
    let at = low_before.len() as int;
    assert(lowered.subrange(at, at + 6) =~= "arxiv:"@);
    lemma_first_at(lowered, "arxiv:"@, at);
    assert(lowered.take(at) =~= low_before);
    let k = (before.len() + mark.len()) as int;
    assert(text.take(k) =~= before + mark);
    crate::text::lemma_byte_len_add(before, mark);
    crate::text::lemma_index_at(text, k);
    let e = k + id.len();
    assert forall|i: int| k <= i < e implies ('0' <= #[trigger] text[i] <= '9') || text[i]
        == '.' by {
        assert(text[i] == id[i - k]);
    }
    if behind.len() > 0 {
        assert(text[e] == behind[0]);
    }
    lemma_number_end(text, k, e);
    assert(text.subrange(k, e) =~= id);
}

/// The DOI that a text carries is the word that starts at its first `10.`, without the
/// punctuation at its end.
pub proof fn lemma_doi_mark_is_read(
    before: Seq<char>,
    id: Seq<char>,
    marks: Seq<char>,
    behind: Seq<char>,
    low_before: Seq<char>,
    low_behind: Seq<char>,
    arxiv: Seq<char>,
)
    requires
        byte_len(before) == byte_len(low_before),
        forall|i: int| 0 <= i < id.len() ==> !whitespace(#[trigger] id[i]),
        id.len() > 0,
        id.last() != '.' && id.last() != ',' && id.last() != ';' && id.last() != ')',
        forall|i: int|
            0 <= i < marks.len() ==> #[trigger] marks[i] == '.' || marks[i] == ',' || marks[i] == ';'
                || marks[i] == ')',
        behind.len() > 0 ==> whitespace(behind[0]),
        forall|j: int|
            0 <= j < low_before.len() ==> !occurs_at(low_before + "10."@ + low_behind, "10."@, j),
    ensures
        identifiers(
            before + (id + marks) + behind,
            low_before + "10."@ + low_behind,
            Some(arxiv),
            None,
        ) == Some(
            (
                Some(arxiv),
                if byte_len(id) >= 5 {
                    Some(id)
                } else {
                    None
                },
            ),
        ),
{
    reveal_strlit("10.");
    let word = id + marks;
    let text = before + word + behind;
    let lowered = low_before + "10."@ + low_behind;
    let at = low_before.len() as int;
    assert(lowered.subrange(at, at + 3) =~= "10."@);
    lemma_first_at(lowered, "10."@, at);
    assert(lowered.take(at) =~= low_before);
    let k = before.len() as int;
    assert(text.take(k) =~= before);
    crate::text::lemma_index_at(text, k);
    let e = k + word.len();
    assert forall|i: int| k <= i < e implies !whitespace(#[trigger] text[i]) by {
        if i - k < id.len() {
            assert(text[i] == id[i - k]);
        } else {
            assert(text[i] == marks[i - k - id.len()]);
        }
    }
    if behind.len() > 0 {
        assert(text[e] == behind[0]);
    }
    lemma_word_end(text, k, e);
    assert(text.subrange(k, e) =~= word);
    lemma_without_punctuation(id, marks);
}

/// An identifier that is known is never replaced, and none is made up where the text has
/// no mark of it.
pub proof fn lemma_known_identifiers_stay(
    text: Seq<char>,
    lowered: Seq<char>,
    arxiv: Option<Seq<char>>,
    doi: Option<Seq<char>>,
)
    ensures
        identifiers(text, lowered, arxiv, doi) matches Some(ids) ==> {
            &&& arxiv is Some ==> ids.0 == arxiv
            &&& doi is Some ==> ids.1 == doi
            &&& arxiv is None && (forall|i: int| !occurs_at(lowered, "arxiv:"@, i)) ==> ids.0 is None
            &&& doi is None && (forall|i: int| !occurs_at(lowered, "10."@, i)) ==> ids.1 is None
        },
        arxiv is Some && doi is Some ==> identifiers(text, lowered, arxiv, doi) == Some((arxiv, doi)),
{
    reveal(first_at);
}

proof fn lemma_task_place(tasks: Seq<DownloadTask>, id: i64, i: int, k: int)
    requires
        0 <= i <= k < tasks.len(),
        tasks[k].paper_id == Some(id),
        forall|j: int| i <= j < k ==> (#[trigger] tasks[j]).paper_id != Some(id),
    ensures
        task_of_paper(tasks, id, i) == Some(k),
    decreases k - i,
{
    if i < k {
        lemma_task_place(tasks, id, i + 1, k);
    }
}

/// Once lookups have been started, the first download of a paper that is looked up shows
/// it, a download that waited for metadata that nobody looks up is complete, and no other
/// download has changed. Nothing but the state of a download changes.
pub proof fn lemma_downloads_wait_for_lookups(
    tasks: Seq<DownloadTask>,
    candidates: Seq<EnrichmentCandidate>,
    active: Seq<i64>,
    k: int,
)
    requires
        0 <= k < tasks.len(),
    ensures
        ({
            let task = tasks[k];
            let now = after_spawn(tasks, candidates, active, k);
            let looked_up = task.paper_id is Some && !active.contains(task.paper_id->0)
                && exists|i: int|
                0 <= i < candidates.len() && (#[trigger] candidates[i]).paper_id
                    == task.paper_id->0;
            let first = task.paper_id is Some && forall|j: int|
                0 <= j < k ==> (#[trigger] tasks[j]).paper_id != task.paper_id;
            &&& now == DownloadTask { status: now.status, ..task }
            &&& looked_up && first ==> now.status is Enriching
            &&& looked_up && !first ==> now.status == task.status
            &&& !looked_up && task.status is ExtractingMetadata ==> now.status is Completed
            &&& !looked_up && !(task.status is ExtractingMetadata) ==> now.status == task.status
        }),
{
    let task = tasks[k];
    if task.paper_id is Some {
        let id = task.paper_id->0;
        let first = forall|j: int| 0 <= j < k ==> (#[trigger] tasks[j]).paper_id != task.paper_id;
        if first {
            lemma_task_place(tasks, id, 0, k);
        } else {
            lemma_earlier_task(tasks, id, 0, k);
        }
    }
}

proof fn lemma_earlier_task(tasks: Seq<DownloadTask>, id: i64, i: int, k: int)
    requires
        0 <= i <= k < tasks.len(),
        exists|j: int| i <= j < k && (#[trigger] tasks[j]).paper_id == Some(id),
    ensures
        task_of_paper(tasks, id, i) != Some(k),
        task_of_paper(tasks, id, i) is Some,
    decreases k - i,
{
    if tasks[i].paper_id != Some(id) {
        lemma_earlier_task(tasks, id, i + 1, k);
    }
}

/// A lookup is started for each candidate that nobody looks up yet, and for no other.
pub proof fn lemma_each_paper_is_looked_up_once(
    candidates: Seq<EnrichmentCandidate>,
    active: Seq<i64>,
    c: EnrichmentCandidate,
)
    requires
        candidates.contains(c),
    ensures
        new_jobs(candidates, active).contains(c) <==> !active.contains(c.paper_id),
        forall|i: int|
            0 <= i < new_jobs(candidates, active).len() ==> candidates.contains(
                #[trigger] new_jobs(candidates, active)[i],
            ),
{
    broadcast use vstd::seq_lib::group_filter_ensures;

    let p = |c: EnrichmentCandidate| !active.contains(c.paper_id);
    let jobs = candidates.filter(p);
    assert(p(c) ==> jobs.contains(c));
    if jobs.contains(c) {
        let j = choose|j: int| 0 <= j < jobs.len() && jobs[j] == c;
        assert(p(jobs[j]));
    }
    assert forall|i: int| 0 <= i < jobs.len() implies candidates.contains(#[trigger] jobs[i]) by {
        lemma_filtered_from(candidates, p, i);
    }
}

proof fn lemma_filtered_from(
    s: Seq<EnrichmentCandidate>,
    p: spec_fn(EnrichmentCandidate) -> bool,
    i: int,
)
    requires
        0 <= i < s.filter(p).len(),
    ensures
        s.contains(s.filter(p)[i]),
    decreases s.len(),
{
    reveal(Seq::filter);
    if s.len() > 0 {
        let rest = s.drop_last();
        if i < rest.filter(p).len() {
            lemma_filtered_from(rest, p, i);
            let j = choose|j: int| 0 <= j < rest.len() && rest[j] == rest.filter(p)[i];
            assert(s[j] == s.filter(p)[i]);
        } else {
            assert(s[s.len() - 1] == s.filter(p)[i]);
        }
    }
}

/// The temporary file of a download takes its name as soon as the download waits for
/// nothing more, and not before.
pub proof fn lemma_settled_files_take_their_name(
    tasks: Seq<DownloadTask>,
    candidates: Seq<EnrichmentCandidate>,
    active: Seq<i64>,
    n: int,
)
    requires
        0 <= n <= tasks.len(),
    ensures
        forall|i: int|
            0 <= i < n && (#[trigger] tasks[i]).pdf_path is Some && settled(
                tasks[i],
                candidates,
                active,
            ) ==> settled_files(tasks, candidates, active, n).contains(
                (with_extension(tasks[i].pdf_path->0@, "pdf.part"@), tasks[i].pdf_path->0@),
            ),
        forall|k: int|
            0 <= k < settled_files(tasks, candidates, active, n).len() ==> exists|i: int|
                0 <= i < n && (#[trigger] tasks[i]).pdf_path is Some && settled(
                    tasks[i],
                    candidates,
                    active,
                ) && (#[trigger] settled_files(tasks, candidates, active, n)[k]).1
                    == tasks[i].pdf_path->0@,
    decreases n,
{
    if n > 0 {
        lemma_settled_files_take_their_name(tasks, candidates, active, n - 1);
        let before = settled_files(tasks, candidates, active, n - 1);
        let all = settled_files(tasks, candidates, active, n);
        assert forall|i: int|
            0 <= i < n && (#[trigger] tasks[i]).pdf_path is Some && settled(
                tasks[i],
                candidates,
                active,
            ) implies all.contains(
            (with_extension(tasks[i].pdf_path->0@, "pdf.part"@), tasks[i].pdf_path->0@),
        ) by {
            let e = (with_extension(tasks[i].pdf_path->0@, "pdf.part"@), tasks[i].pdf_path->0@);
            if i < n - 1 {
                let j = choose|j: int| 0 <= j < before.len() && before[j] == e;
                assert(all[j] == e);
            } else {
                assert(all[before.len() as int] == e);
            }
        }
        assert forall|k: int| 0 <= k < all.len() implies exists|i: int|
            0 <= i < n && (#[trigger] tasks[i]).pdf_path is Some && settled(
                tasks[i],
                candidates,
                active,
            ) && (#[trigger] all[k]).1 == tasks[i].pdf_path->0@ by {
            if k < before.len() {
                assert(all[k] == before[k]);
                let i = choose|i: int|
                    0 <= i < n - 1 && (#[trigger] tasks[i]).pdf_path is Some && settled(
                        tasks[i],
                        candidates,
                        active,
                    ) && before[k].1 == tasks[i].pdf_path->0@;
                assert(tasks[i].pdf_path is Some);
            } else {
                assert(tasks[n - 1].pdf_path is Some);
            }
        }
    }
}

} // verus!
