//! Downloads from their start to the finished file.

use crate::chars::{control, is_control, whitespace};
use crate::modals::{download_of, downloaded_remote_paper};
use crate::model::{
    tasks_view, App, DownloadStatus, DownloadTask, DownloadsState, RemotePaper, RemotePaperView,
    StatusView, TaskView,
};
use crate::paths::{
    components, entry_name, extension, extension_of, inside, is_inside, join_path, joined_path,
    plain_folder, replace_extension, with_extension,
};
use crate::rows::{filtered_downloads, nth_marked, positions, shown_downloads};
use crate::strings::{concat, ends_with, opt_text, same_text, texts, trim, trimmed};
use crate::text::{from_chars, from_range, min, to_chars};
use crate::workspaces::selected_download;
use vstd::prelude::*;

verus! {

/// A character of a title as it stands in a file name.
pub open spec fn file_char(c: char, windows: bool) -> char {
    if c == '/' {
        '_'
    } else if c == '\n' || c == '\r' || c == '\t' {
        ' '
    } else if windows && (c == ':' || c == '*' || c == '?' || c == '"' || c == '<' || c == '>' || c
        == '|') {
        '_'
    } else if windows && control(c) {
        ' '
    } else {
        c
    }
}

/// `s` without dots and spaces at its end.
pub open spec fn without_dots(s: Seq<char>) -> Seq<char>
    decreases s.len(),
{
    if s.len() > 0 && (s.last() == '.' || s.last() == ' ') {
        without_dots(s.drop_last())
    } else {
        s
    }
}

/// A title as it stands in a file name, with the further rules of Windows where
/// they apply.
pub open spec fn file_title(title: Seq<char>, windows: bool) -> Seq<char> {
    let s = trimmed(Seq::new(title.len(), |i: int| file_char(title[i], windows)));
    if windows {
        without_dots(s)
    } else {
        s
    }
}

/// A title as it stands in a file name.
pub fn sanitize_download_filename_component(title: &str, windows: bool) -> (r: String)
    ensures
        r@ == file_title(title@, windows),
{
    let chars = to_chars(title);
    let mut out: Vec<char> = Vec::new();
    let mut i: usize = 0;
    while i < chars.len()
        invariant
            i <= chars@.len(),
            out@.len() == i,
            forall|j: int| 0 <= j < i ==> out@[j] == file_char(chars@[j], windows),
        decreases chars@.len() - i,
    {
        let c: char = chars[i];
        let now: char = match c {
            '/' => '_',
            '\n' | '\r' | '\t' => ' ',
            ':' | '*' | '?' | '"' | '<' | '>' | '|' => if windows {
                '_'
            } else {
                c
            },
            _ => if windows && is_control(c) {
                ' '
            } else {
                c
            },
        };
        out.push(now);
        i = i + 1;
    }
    assert(out@ =~= Seq::new(title@.len(), |i: int| file_char(title@[i], windows)));
    let s = from_chars(&out);
    let s = trim(s.as_str());
    if !windows {
        return s;
    }
    let chars = to_chars(s.as_str());
    let mut n: usize = chars.len();
    assert(chars@.take(n as int) =~= chars@);
    while n > 0 && (chars[n - 1] == '.' || chars[n - 1] == ' ')
        invariant
            n <= chars@.len(),
            without_dots(chars@) == without_dots(chars@.take(n as int)),
        decreases n,
    {
        assert(chars@.take(n as int).drop_last() =~= chars@.take(n - 1));
        n = n - 1;
    }
    assert(chars@.subrange(0, n as int) =~= chars@.take(n as int));
    from_range(&chars, 0, n)
}

/// A file name on other systems than Windows holds no slash and no line break.
pub proof fn lemma_file_title_safe(title: Seq<char>, windows: bool)
    ensures
        forall|i: int|
            0 <= i < file_title(title, windows).len() ==> {
                let c = #[trigger] file_title(title, windows)[i];
                c != '/' && c != '\n' && c != '\r' && c != '\t' && (windows ==> c != ':' && c != '*'
                    && c != '?' && c != '"' && c != '<' && c != '>' && c != '|' && !control(c)
                    || c == ' ' || c == '_')
            },
{
    let raw = Seq::new(title.len(), |i: int| file_char(title[i], windows));
    crate::strings::lemma_trimmed_part(raw);
    lemma_without_dots_part(trimmed(raw));
    assert forall|i: int| 0 <= i < file_title(title, windows).len() implies {
        let c = #[trigger] file_title(title, windows)[i];
        c != '/' && c != '\n' && c != '\r' && c != '\t' && (windows ==> c != ':' && c != '*' && c
            != '?' && c != '"' && c != '<' && c != '>' && c != '|' && !control(c) || c == ' ' || c
            == '_')
    } by {
        let c = file_title(title, windows)[i];
        assert(trimmed(raw).contains(c));
        assert(raw.contains(c));
        let j = raw.index_of(c);
        assert(file_char(title[j], windows) == c);
    }
}

proof fn lemma_without_dots_part(s: Seq<char>)
    ensures
        forall|i: int|
            0 <= i < without_dots(s).len() ==> s.contains(#[trigger] without_dots(s)[i]),
    decreases s.len(),
{
    if s.len() > 0 && (s.last() == '.' || s.last() == ' ') {
        lemma_without_dots_part(s.drop_last());
        assert forall|i: int| 0 <= i < without_dots(s).len() implies s.contains(
            #[trigger] without_dots(s)[i],
        ) by {
            let c = without_dots(s)[i];
            assert(s.drop_last().contains(without_dots(s.drop_last())[i]));
            let k = s.drop_last().index_of(c);
            assert(s[k] == c);
        }
    }
}

/// Papers whose download is under way, by the identifier of the download.
#[derive(Debug)]
pub struct PendingDownloads {
    pub ids: Vec<String>,
    pub papers: Vec<RemotePaper>,
}

/// Position of `id` from position `i` on, or the number of entries.
pub open spec fn place_of(ids: Seq<String>, id: Seq<char>, i: int) -> int
    decreases ids.len() - i,
{
    if i >= ids.len() || ids[i]@ == id {
        i
    } else {
        place_of(ids, id, i + 1)
    }
}

proof fn lemma_place_of(ids: Seq<String>, id: Seq<char>, i: int)
    requires
        0 <= i <= ids.len(),
    ensures
        i <= place_of(ids, id, i) <= ids.len(),
        place_of(ids, id, i) < ids.len() ==> ids[place_of(ids, id, i)]@ == id,
        forall|j: int| i <= j < place_of(ids, id, i) ==> (#[trigger] ids[j])@ != id,
    decreases ids.len() - i,
{
    if i < ids.len() && ids[i]@ != id {
        lemma_place_of(ids, id, i + 1);
    }
}

impl View for PendingDownloads {
    type V = Map<Seq<char>, RemotePaperView>;

    open spec fn view(&self) -> Map<Seq<char>, RemotePaperView> {
        Map::new(
            |id: Seq<char>| place_of(self.ids@, id, 0) < self.ids@.len(),
            |id: Seq<char>| self.papers@[place_of(self.ids@, id, 0)]@,
        )
    }
}

impl PendingDownloads {
    /// Whether every entry has its paper, and no identifier occurs twice.
    pub open spec fn wf(self) -> bool {
        &&& self.ids@.len() == self.papers@.len()
        &&& forall|i: int, j: int|
            0 <= i < j < self.ids@.len() ==> (#[trigger] self.ids@[i])@ != (
            #[trigger] self.ids@[j])@
    }

    /// No download is under way.
    pub fn new() -> (r: PendingDownloads)
        ensures
            r.wf(),
            r@ == Map::<Seq<char>, RemotePaperView>::empty(),
    {
        let r = PendingDownloads { ids: Vec::new(), papers: Vec::new() };
        assert(r@ =~= Map::<Seq<char>, RemotePaperView>::empty());
        r
    }

    fn place(&self, id: &str) -> (r: usize)
        ensures
            r == place_of(self.ids@, id@, 0),
            r <= self.ids@.len(),
    {
        let mut i: usize = 0;
        while i < self.ids.len() && !same_text(self.ids[i].as_str(), id)
            invariant
                i <= self.ids@.len(),
                place_of(self.ids@, id@, 0) == place_of(self.ids@, id@, i as int),
            decreases self.ids@.len() - i,
        {
            i = i + 1;
        }
        i
    }

    /// Whether a download is under way.
    pub fn contains(&self, id: &str) -> (r: bool)
        ensures
            r == self@.dom().contains(id@),
    {
        self.place(id) < self.ids.len()
    }

    /// Notes a download that was not under way.
    pub fn insert(&mut self, id: String, paper: RemotePaper)
        requires
            old(self).wf(),
            !old(self)@.dom().contains(id@),
        ensures
            final(self).wf(),
            final(self)@ == old(self)@.insert(id@, paper@),
    {
        let ghost before = *self;
        proof {
            lemma_place_of(before.ids@, id@, 0);
        }
        self.ids.push(id);
        self.papers.push(paper);
        proof {
            assert forall|k: Seq<char>| place_of(self.ids@, k, 0) == (if k == id@ {
                before.ids@.len() as int
            } else if place_of(before.ids@, k, 0) < before.ids@.len() {
                place_of(before.ids@, k, 0)
            } else {
                self.ids@.len() as int
            }) by {
                lemma_place_of(before.ids@, k, 0);
                lemma_place_of(self.ids@, k, 0);
                let p = place_of(self.ids@, k, 0);
                let q = place_of(before.ids@, k, 0);
                if q < before.ids@.len() {
                    assert(self.ids@[q] == before.ids@[q]);
                    if p < q {
                        assert(self.ids@[p] == before.ids@[p]);
                    }
                } else if p < before.ids@.len() {
                    assert(self.ids@[p] == before.ids@[p]);
                }
                assert(self.ids@[before.ids@.len() as int] == id);
            }
            assert forall|k: Seq<char>| #[trigger]
                self@.dom().contains(k) == before@.insert(id@, paper@).dom().contains(k) by {
                lemma_place_of(self.ids@, k, 0);
                lemma_place_of(before.ids@, k, 0);
            }
            assert forall|k: Seq<char>| #[trigger] self@.dom().contains(k) implies self@[k]
                == before@.insert(id@, paper@)[k] by {
                lemma_place_of(self.ids@, k, 0);
                lemma_place_of(before.ids@, k, 0);
                if k != id@ {
                    let q = place_of(before.ids@, k, 0);
                    assert(self.papers@[q] == before.papers@[q]);
                }
            }
            assert(self@ =~= before@.insert(id@, paper@));
        }
    }

    /// Takes a download out, and gives its paper where it was under way.
    pub fn remove(&mut self, id: &str) -> (r: Option<RemotePaper>)
        requires
            old(self).wf(),
        ensures
            final(self).wf(),
            final(self)@ == old(self)@.remove(id@),
            r is Some <==> old(self)@.dom().contains(id@),
            r matches Some(paper) ==> paper@ == old(self)@[id@],
    {
        let ghost before = *self;
        let k: usize = self.place(id);
        if k >= self.ids.len() {
            assert(self@ =~= before@.remove(id@));
            return None;
        }
        proof {
            lemma_place_of(before.ids@, id@, 0);
        }
        let _ = self.ids.remove(k);
        let paper = self.papers.remove(k);
        proof {
            assert forall|x: Seq<char>| place_of(self.ids@, x, 0) == (if x == id@
                || place_of(before.ids@, x, 0) >= before.ids@.len() {
                self.ids@.len() as int
            } else if place_of(before.ids@, x, 0) < k {
                place_of(before.ids@, x, 0)
            } else {
                place_of(before.ids@, x, 0) - 1
            }) by {
                lemma_place_of(before.ids@, x, 0);
                lemma_place_of(self.ids@, x, 0);
                let p = place_of(self.ids@, x, 0);
                let q = place_of(before.ids@, x, 0);
                if p < self.ids@.len() {
                    let o = if p < k {
                        p
                    } else {
                        p + 1
                    };
                    assert(self.ids@[p] == before.ids@[o]);
                    assert(before.ids@[o]@ == x);
                }
                if q < before.ids@.len() && q != k {
                    let n = if q < k {
                        q
                    } else {
                        q - 1
                    };
                    assert(self.ids@[n] == before.ids@[q]);
                    assert(self.ids@[n]@ == x);
                }
            }
            assert forall|x: Seq<char>| #[trigger]
                self@.dom().contains(x) == before@.remove(id@).dom().contains(x) by {
                lemma_place_of(self.ids@, x, 0);
                lemma_place_of(before.ids@, x, 0);
            }
            assert forall|x: Seq<char>| #[trigger] self@.dom().contains(x) implies self@[x]
                == before@.remove(id@)[x] by {
                lemma_place_of(self.ids@, x, 0);
                lemma_place_of(before.ids@, x, 0);
            }
            assert(self@ =~= before@.remove(id@));
        }
        Some(paper)
    }
}

/// Position of the first download with an identifier, from position `i` on.
pub open spec fn task_place(tasks: Seq<DownloadTask>, id: Seq<char>, i: int) -> Option<int>
    decreases tasks.len() - i,
{
    if i >= tasks.len() {
        None
    } else if tasks[i].id@ == id {
        Some(i)
    } else {
        task_place(tasks, id, i + 1)
    }
}

pub(crate) fn find_task(tasks: &Vec<DownloadTask>, id: &str) -> (r: Option<usize>)
    ensures
        r is Some <==> task_place(tasks@, id@, 0) is Some,
        r matches Some(i) ==> task_place(tasks@, id@, 0) == Some(i as int) && i < tasks@.len(),
{
    let mut i: usize = 0;
    while i < tasks.len()
        invariant
            i <= tasks@.len(),
            task_place(tasks@, id@, 0) == task_place(tasks@, id@, i as int),
        decreases tasks@.len() - i,
    {
        if same_text(tasks[i].id.as_str(), id) {
            return Some(i);
        }
        i = i + 1;
    }
    None
}

/// The name of the file that a paper is downloaded to, without its extension:
/// its title or, where nothing of that is left, the last part of its identifier.
pub open spec fn download_name(paper: RemotePaper, windows: bool) -> Seq<char> {
    let title = file_title(paper.title@, windows);
    if title.len() == 0 {
        crate::paths::last_part(paper.id@)
    } else {
        title
    }
}

/// The file that a paper is downloaded to.
pub open spec fn download_path(paper: RemotePaper, directory: Seq<char>, windows: bool) -> Seq<
    char,
> {
    joined_path(directory, download_name(paper, windows) + ".pdf"@)
}

/// A download to be made.
#[derive(Debug)]
pub struct DownloadRequest {
    pub id: String,
    pub url: String,
    pub destination: String,
}

/// Whether a paper is to be downloaded: it has a file, the library does not hold
/// it, and no download of it is under way.
pub open spec fn can_download(app: App, pending: PendingDownloads, paper: RemotePaper) -> bool {
    paper.pdf_url is Some && download_of(app.library.papers@, paper, 0) is None
        && !pending@.dom().contains(paper.id@)
}

/// A download that has just been asked for.
pub open spec fn new_task(paper: RemotePaper, path: Seq<char>) -> TaskView {
    TaskView {
        id: paper.id@,
        title: paper.title@,
        downloaded: 0,
        total: None,
        paper_id: None,
        linked_paper: None,
        pdf_path: Some(path),
        status: StatusView::Starting,
        remote_paper: Some(paper@),
        failed_at: None,
    }
}

/// Takes up a download, and tells what has to be fetched, and to where.
pub fn start_download(
    app: &mut App,
    pending: &mut PendingDownloads,
    paper: RemotePaper,
    directory: &str,
    windows: bool,
) -> (r: Option<DownloadRequest>)
    requires
        old(pending).wf(),
    ensures
        final(pending).wf(),
        r is Some <==> can_download(*old(app), *old(pending), paper),
        r matches Some(request) ==> {
            let path = download_path(paper, directory@, windows);
            &&& request.id@ == paper.id@
            &&& Some(request.url@) == opt_text(paper.pdf_url)
            &&& request.destination@ == path
            &&& final(pending)@ == old(pending)@.insert(paper.id@, paper@)
            &&& *final(app) == (App {
                toast: final(app).toast,
                downloads: DownloadsState {
                    tasks: final(app).downloads.tasks,
                    ..old(app).downloads
                },
                ..*old(app)
            })
            &&& opt_text(final(app).toast) == Some("Downloading paper..."@)
            &&& tasks_view(final(app).downloads.tasks@) == tasks_view(
                old(app).downloads.tasks@,
            ).push(new_task(paper, path))
        },
        r is None ==> *final(pending) == *old(pending) && *final(app) == (App {
            toast: final(app).toast,
            ..*old(app)
        }),
        r is None ==> if paper.pdf_url is Some && download_of(old(app).library.papers@, paper, 0)
            is Some {
            opt_text(final(app).toast) == Some("Paper already available. Skipping download..."@)
        } else {
            final(app).toast == old(app).toast
        },
{
    let url: String = match &paper.pdf_url {
        Some(url) => url.clone(),
        None => return None,
    };
    if downloaded_remote_paper(&app.library.papers, &paper).is_some() {
        app.toast = Some("Paper already available. Skipping download...".to_owned());
        return None;
    }
    if pending.contains(paper.id.as_str()) {
        return None;
    }
    let title = sanitize_download_filename_component(paper.title.as_str(), windows);
    let name = if title.as_str().is_empty() {
        crate::paths::last_part_of(paper.id.as_str())
    } else {
        title
    };
    let destination = join_path(directory, concat(name.as_str(), ".pdf").as_str());
    let id = paper.id.clone();
    pending.insert(id.clone(), paper.copy());
    app.toast = Some("Downloading paper...".to_owned());
    let ghost before = app.downloads.tasks@;
    let task = DownloadTask {
        id: id.clone(),
        title: paper.title.clone(),
        downloaded: 0,
        total: None,
        paper_id: None,
        linked_paper: None,
        pdf_path: Some(destination.clone()),
        status: DownloadStatus::Starting,
        remote_paper: Some(paper),
        failed_at: None,
    };
    app.downloads.tasks.push(task);
    assert(tasks_view(app.downloads.tasks@) =~= tasks_view(before).push(
        new_task(paper, destination@),
    ));
    Some(DownloadRequest { id, url, destination })
}

/// A failed download to be made once more. `stale` lists files of the earlier
/// attempt that have to go.
#[derive(Debug)]
pub struct RetryRequest {
    pub url: String,
    pub destination: String,
    pub stale: Vec<String>,
}

/// The file that a download is made to.
pub open spec fn retry_path(task: DownloadTask, directory: Seq<char>) -> Seq<char> {
    match task.pdf_path {
        Some(path) => path@,
        None => joined_path(directory, task.id@ + ".pdf"@),
    }
}

/// Starts a download over, unless it is under way or unknown.
pub fn retry_download(
    app: &mut App,
    pending: &mut PendingDownloads,
    id: &str,
    paper: RemotePaper,
    directory: &str,
) -> (r: Option<RetryRequest>)
    requires
        old(pending).wf(),
    ensures
        final(pending).wf(),
        r is Some <==> !old(pending)@.dom().contains(id@) && task_place(
            old(app).downloads.tasks@,
            id@,
            0,
        ) is Some,
        r matches Some(request) ==> {
            let k = task_place(old(app).downloads.tasks@, id@, 0)->0;
            let task = old(app).downloads.tasks@[k];
            let path = retry_path(task, directory@);
            &&& request.url@ == (match paper.pdf_url {
                Some(url) => url@,
                None => Seq::empty(),
            })
            &&& request.destination@ == path
            &&& texts(request.stale@) == (match task.pdf_path {
                Some(p) => seq![p@, with_extension(p@, "pdf.part"@)],
                None => Seq::empty(),
            })
            &&& final(pending)@ == old(pending)@.insert(id@, paper@)
            &&& *final(app) == (App {
                toast: final(app).toast,
                downloads: DownloadsState {
                    tasks: final(app).downloads.tasks,
                    ..old(app).downloads
                },
                ..*old(app)
            })
            &&& opt_text(final(app).toast) == Some("Retrying download..."@)
            &&& final(app).downloads.tasks@ == old(app).downloads.tasks@.update(
                k,
                DownloadTask {
                    downloaded: 0,
                    total: None,
                    status: DownloadStatus::Starting,
                    failed_at: None,
                    ..task
                },
            )
        },
        r is None ==> *final(app) == *old(app) && *final(pending) == *old(pending),
{
    if pending.contains(id) {
        return None;
    }
    match find_task(&app.downloads.tasks, id) {
        None => None,
        Some(k) => {
            let mut stale: Vec<String> = Vec::new();
            let destination = match &app.downloads.tasks[k].pdf_path {
                Some(path) => {
                    stale.push(path.clone());
                    stale.push(replace_extension(path.as_str(), "pdf.part"));
                    assert(texts(stale@) =~= seq![path@, with_extension(path@, "pdf.part"@)]);
                    path.clone()
                },
                None => {
                    assert(texts(stale@) =~= Seq::empty());
                    join_path(directory, concat(id, ".pdf").as_str())
                },
            };
            let url: String = match &paper.pdf_url {
                Some(url) => url.clone(),
                None => String::new(),
            };
            proof {
                lemma_task_place(app.downloads.tasks@, id@, 0);
            }
            app.downloads.tasks[k].downloaded = 0;
            app.downloads.tasks[k].total = None;
            app.downloads.tasks[k].status = DownloadStatus::Starting;
            app.downloads.tasks[k].failed_at = None;
            pending.insert(id.to_owned(), paper);
            app.toast = Some("Retrying download...".to_owned());
            Some(RetryRequest { url, destination, stale })
        },
    }
}

proof fn lemma_task_place(tasks: Seq<DownloadTask>, id: Seq<char>, i: int)
    requires
        0 <= i,
    ensures
        task_place(tasks, id, i) matches Some(k) ==> i <= k < tasks.len() && tasks[k].id@ == id,
    decreases tasks.len() - i,
{
    if i < tasks.len() && tasks[i].id@ != id {
        lemma_task_place(tasks, id, i + 1);
    }
}

/// What a running download reports.
#[derive(Debug)]
pub enum DownloadEvent {
    Started { id: String, total: Option<u64> },
    Progress { id: String, downloaded: u64 },
    Completed { id: String, path: String },
    Failed { id: String, error: String },
}

/// The download that a report is about.
pub open spec fn event_id(event: DownloadEvent) -> Seq<char> {
    match event {
        DownloadEvent::Started { id, .. } => id@,
        DownloadEvent::Progress { id, .. } => id@,
        DownloadEvent::Completed { id, .. } => id@,
        DownloadEvent::Failed { id, .. } => id@,
    }
}

/// A download after a report, received at the time `now`.
pub open spec fn reported(task: DownloadTask, event: DownloadEvent, now: u64) -> DownloadTask {
    match event {
        DownloadEvent::Started { total, .. } => DownloadTask {
            status: DownloadStatus::Running,
            total,
            ..task
        },
        DownloadEvent::Progress { downloaded, .. } => DownloadTask {
            status: DownloadStatus::Running,
            downloaded,
            ..task
        },
        DownloadEvent::Completed { .. } => DownloadTask {
            status: DownloadStatus::ExtractingMetadata,
            ..task
        },
        DownloadEvent::Failed { error, .. } => DownloadTask {
            status: DownloadStatus::Failed(error),
            failed_at: Some(now),
            ..task
        },
    }
}

/// A finished file to be given its name, where it exists, and to be indexed.
#[derive(Debug)]
pub struct Promotion {
    pub id: String,
    pub temporary: String,
    pub path: String,
}

/// Notes what a download reports. A finished one has to be promoted.
pub fn apply_download_event(
    app: &mut App,
    pending: &mut PendingDownloads,
    event: DownloadEvent,
    now: u64,
) -> (r: Result<Option<Promotion>, String>)
    requires
        old(pending).wf(),
    ensures
        final(pending).wf(),
        match task_place(old(app).downloads.tasks@, event_id(event), 0) {
            None => {
                &&& r matches Err(e) && e@ == "received download event for unknown task"@
                &&& *final(app) == *old(app)
                &&& *final(pending) == *old(pending)
            },
            Some(k) => {
                &&& r is Ok
                &&& *final(app) == (App {
                    downloads: DownloadsState {
                        tasks: final(app).downloads.tasks,
                        ..old(app).downloads
                    },
                    ..*old(app)
                })
                &&& final(app).downloads.tasks@ == old(app).downloads.tasks@.update(
                    k,
                    reported(old(app).downloads.tasks@[k], event, now),
                )
                &&& final(pending)@ == (if event is Failed {
                    old(pending)@.remove(event_id(event))
                } else {
                    old(pending)@
                })
                &&& match event {
                    DownloadEvent::Completed { id, path } => r->Ok_0 matches Some(p) && p.id@ == id@
                        && p.temporary@ == path@ && p.path@ == with_extension(path@, ""@),
                    _ => r->Ok_0 is None,
                }
            },
        },
{
    let id: String = match &event {
        DownloadEvent::Started { id, .. } => id.clone(),
        DownloadEvent::Progress { id, .. } => id.clone(),
        DownloadEvent::Completed { id, .. } => id.clone(),
        DownloadEvent::Failed { id, .. } => id.clone(),
    };
    let k: usize = match find_task(&app.downloads.tasks, id.as_str()) {
        Some(k) => k,
        None => return Err("received download event for unknown task".to_owned()),
    };
    match event {
        DownloadEvent::Started { id: _, total } => {
            app.downloads.tasks[k].status = DownloadStatus::Running;
            app.downloads.tasks[k].total = total;
            Ok(None)
        },
        DownloadEvent::Progress { id: _, downloaded } => {
            app.downloads.tasks[k].status = DownloadStatus::Running;
            app.downloads.tasks[k].downloaded = downloaded;
            Ok(None)
        },
        DownloadEvent::Completed { id, path } => {
            app.downloads.tasks[k].status = DownloadStatus::ExtractingMetadata;
            let to = replace_extension(path.as_str(), "");
            Ok(Some(Promotion { id, temporary: path, path: to }))
        },
        DownloadEvent::Failed { id, error } => {
            let _ = pending.remove(id.as_str());
            app.downloads.tasks[k].status = DownloadStatus::Failed(error);
            app.downloads.tasks[k].failed_at = Some(now);
            Ok(None)
        },
    }
}

/// Notes the file of a finished download. Gives the paper that it has to be
/// attached to in the library.
pub fn download_indexed(
    app: &mut App,
    pending: &mut PendingDownloads,
    id: &str,
    path: String,
    size: u64,
) -> (r: Option<RemotePaper>)
    requires
        old(pending).wf(),
    ensures
        final(pending).wf(),
        final(pending)@ == old(pending)@.remove(id@),
        r is Some <==> old(pending)@.dom().contains(id@),
        r matches Some(paper) ==> paper@ == old(pending)@[id@],
        *final(app) == (App {
            downloads: DownloadsState { tasks: final(app).downloads.tasks, ..old(app).downloads },
            ..*old(app)
        }),
        final(app).downloads.tasks@ == (match task_place(old(app).downloads.tasks@, id@, 0) {
            None => old(app).downloads.tasks@,
            Some(k) => old(app).downloads.tasks@.update(
                k,
                DownloadTask {
                    pdf_path: Some(path),
                    downloaded: size,
                    total: Some(size),
                    ..old(app).downloads.tasks@[k]
                },
            ),
        }),
{
    match find_task(&app.downloads.tasks, id) {
        Some(k) => {
            app.downloads.tasks[k].pdf_path = Some(path);
            app.downloads.tasks[k].downloaded = size;
            app.downloads.tasks[k].total = Some(size);
        },
        None => {},
    }
    pending.remove(id)
}

/// Notes the paper of the library that a finished download belongs to.
pub fn download_attached(app: &mut App, id: &str, paper_id: i64)
    ensures
        *final(app) == (App {
            downloads: DownloadsState { tasks: final(app).downloads.tasks, ..old(app).downloads },
            ..*old(app)
        }),
        final(app).downloads.tasks@ == (match task_place(old(app).downloads.tasks@, id@, 0) {
            None => old(app).downloads.tasks@,
            Some(k) => old(app).downloads.tasks@.update(
                k,
                DownloadTask { paper_id: Some(paper_id), ..old(app).downloads.tasks@[k] },
            ),
        }),
{
    match find_task(&app.downloads.tasks, id) {
        Some(k) => {
            app.downloads.tasks[k].paper_id = Some(paper_id);
        },
        None => {},
    }
}

proof fn lemma_filter_all(ts: Seq<DownloadTask>, keep: spec_fn(DownloadTask) -> bool)
    requires
        forall|i: int| 0 <= i < ts.len() ==> keep(#[trigger] ts[i]),
    ensures
        ts.filter(keep) == ts,
    decreases ts.len(),
{
    reveal(Seq::filter);
    if ts.len() > 0 {
        lemma_filter_all(ts.drop_last(), keep);
        assert(ts.drop_last().push(ts.last()) =~= ts);
    }
}

proof fn lemma_filter_remove(ts: Seq<DownloadTask>, i: int, keep: spec_fn(DownloadTask) -> bool)
    requires
        0 <= i < ts.len(),
        !keep(ts[i]),
    ensures
        ts.remove(i).filter(keep) == ts.filter(keep),
{
    reveal_with_fuel(Seq::filter, 2);
    let a = ts.take(i);
    let x = seq![ts[i]];
    let b = ts.skip(i + 1);
    assert(ts =~= (a + x) + b);
    assert(ts.remove(i) =~= a + b);
    Seq::filter_distributes_over_add(a + x, b, keep);
    Seq::filter_distributes_over_add(a, x, keep);
    Seq::filter_distributes_over_add(a, b, keep);
    assert(x.drop_last() =~= Seq::empty());
    assert(x.filter(keep) =~= Seq::empty());
    assert(a.filter(keep) + x.filter(keep) =~= a.filter(keep));
}

/// Whether a download is none of the failed ones under an identifier.
pub open spec fn not_failed(id: Seq<char>) -> spec_fn(DownloadTask) -> bool {
    |t: DownloadTask| t.id@ != id || !(t.status is Failed)
}

/// Ends a finished download: earlier failures of it are dropped, and the user is
/// told unless there is another message.
pub fn download_finished(app: &mut App, id: &str)
    ensures
        *final(app) == (App {
            toast: final(app).toast,
            downloads: DownloadsState { tasks: final(app).downloads.tasks, ..old(app).downloads },
            ..*old(app)
        }),
        opt_text(final(app).toast) == (if old(app).toast is None {
            Some("Download complete. Press Enter to open the PDF."@)
        } else {
            opt_text(old(app).toast)
        }),
        final(app).downloads.tasks@ == old(app).downloads.tasks@.filter(not_failed(id@)),
{
    if app.toast.is_none() {
        app.toast = Some("Download complete. Press Enter to open the PDF.".to_owned());
    }
    let ghost keep = not_failed(id@);
    let mut i: usize = 0;
    while i < app.downloads.tasks.len()
        invariant
            i <= app.downloads.tasks@.len(),
            keep == not_failed(id@),
            app.downloads.tasks@.filter(keep) == old(app).downloads.tasks@.filter(keep),
            forall|j: int| 0 <= j < i ==> keep(#[trigger] app.downloads.tasks@[j]),
            *app == (App {
                toast: app.toast,
                downloads: DownloadsState { tasks: app.downloads.tasks, ..old(app).downloads },
                ..*old(app)
            }),
            opt_text(app.toast) == (if old(app).toast is None {
                Some("Download complete. Press Enter to open the PDF."@)
            } else {
                opt_text(old(app).toast)
            }),
        decreases app.downloads.tasks@.len() - i,
    {
        let failed: bool = matches!(app.downloads.tasks[i].status, DownloadStatus::Failed(_));
        if failed && same_text(app.downloads.tasks[i].id.as_str(), id) {
            proof {
                lemma_filter_remove(app.downloads.tasks@, i as int, keep);
            }
            let _ = app.downloads.tasks.remove(i);
        } else {
            i = i + 1;
        }
    }
    proof {
        lemma_filter_all(app.downloads.tasks@, keep);
    }
}

/// How long a failed download stays in the list, in milliseconds.
pub const FAILED_DOWNLOAD_TTL: u64 = 120_000;

/// Whether a download has not failed too long ago.
pub open spec fn not_expired(now: u64) -> spec_fn(DownloadTask) -> bool {
    |t: DownloadTask|
        !(t.status is Failed && (t.failed_at matches Some(at) && now - at >= FAILED_DOWNLOAD_TTL))
}

/// The last row that can be selected, or the selected one where it comes before.
pub open spec fn clamped(selected: usize, len: nat) -> usize {
    min(
        selected as int,
        if len == 0 {
            0
        } else {
            len - 1
        },
    ) as usize
}

/// The last row that can be selected, or the selected one where it comes before.
pub fn clamp_selected(selected: usize, len: usize) -> (r: usize)
    ensures
        r == clamped(selected, len as nat),
{
    if len == 0 {
        0
    } else if selected < len {
        selected
    } else {
        len - 1
    }
}

/// Drops downloads that failed some time ago. Tells whether there were any.
pub fn expire_failed_downloads(app: &mut App, now: u64) -> (changed: bool)
    ensures
        changed == (final(app).downloads.tasks@.len() != old(app).downloads.tasks@.len()),
        *final(app) == (App {
            downloads: DownloadsState {
                tasks: final(app).downloads.tasks,
                selected: if changed {
                    clamped(old(app).downloads.selected, final(app).downloads.tasks@.len())
                } else {
                    old(app).downloads.selected
                },
            },
            ..*old(app)
        }),
        final(app).downloads.tasks@ == old(app).downloads.tasks@.filter(not_expired(now)),
{
    let before: usize = app.downloads.tasks.len();
    let ghost keep = not_expired(now);
    let mut i: usize = 0;
    while i < app.downloads.tasks.len()
        invariant
            i <= app.downloads.tasks@.len(),
            keep == not_expired(now),
            before == old(app).downloads.tasks@.len(),
            app.downloads.tasks@.filter(keep) == old(app).downloads.tasks@.filter(keep),
            forall|j: int| 0 <= j < i ==> keep(#[trigger] app.downloads.tasks@[j]),
            *app == (App {
                downloads: DownloadsState { tasks: app.downloads.tasks, ..old(app).downloads },
                ..*old(app)
            }),
        decreases app.downloads.tasks@.len() - i,
    {
        let failed: bool = matches!(app.downloads.tasks[i].status, DownloadStatus::Failed(_));
        let old_enough: bool = match app.downloads.tasks[i].failed_at {
            Some(at) => now >= at && now - at >= FAILED_DOWNLOAD_TTL,
            None => false,
        };
        if failed && old_enough {
            proof {
                lemma_filter_remove(app.downloads.tasks@, i as int, keep);
            }
            let _ = app.downloads.tasks.remove(i);
        } else {
            i = i + 1;
        }
    }
    proof {
        lemma_filter_all(app.downloads.tasks@, keep);
    }
    if app.downloads.tasks.len() != before {
        app.downloads.selected = clamp_selected(
            app.downloads.selected,
            app.downloads.tasks.len(),
        );
        return true;
    }
    false
}

/// The temporary file of a download that is taken over where it exists, and the
/// name that it gets.
pub fn finalize_download_task(task: &DownloadTask) -> (r: Option<(String, String)>)
    ensures
        match task.pdf_path {
            Some(path) => r matches Some(p) && p.0@ == with_extension(path@, "pdf.part"@) && p.1@
                == path@,
            None => r is None,
        },
{
    match &task.pdf_path {
        Some(path) => Some((replace_extension(path.as_str(), "pdf.part"), path.clone())),
        None => None,
    }
}

/// Whether a download is still under way.
pub open spec fn is_active(task: DownloadTask) -> bool {
    !(task.status is Completed) && !(task.status is Failed)
}

/// Whether any download is still under way.
pub fn has_active_downloads(app: &App) -> (r: bool)
    ensures
        r == exists|i: int|
            0 <= i < app.downloads.tasks@.len() && is_active(#[trigger] app.downloads.tasks@[i]),
{
    let mut i: usize = 0;
    while i < app.downloads.tasks.len()
        invariant
            i <= app.downloads.tasks@.len(),
            forall|j: int| 0 <= j < i ==> !is_active(#[trigger] app.downloads.tasks@[j]),
        decreases app.downloads.tasks@.len() - i,
    {
        if !matches!(
            app.downloads.tasks[i].status,
            DownloadStatus::Completed | DownloadStatus::Failed(_)
        ) {
            assert(is_active(app.downloads.tasks@[i as int]));
            return true;
        }
        i = i + 1;
    }
    false
}

/// A file of the download folder. `paper` is the paper of the library that is
/// known under its path; `twin` the paper with the same contents, and the path
/// that the library has for it. `modified` orders files by their age.
#[derive(Debug)]
pub struct LocalFile {
    pub name: String,
    pub path: String,
    pub size: u64,
    pub modified: u64,
    pub paper: Option<i64>,
    pub twin: Option<(i64, String)>,
}

/// Whether file `a` comes before file `b`: newer files first, and otherwise in
/// the order they were listed.
pub open spec fn newer(files: Seq<LocalFile>, a: int, b: int) -> bool {
    files[a].modified > files[b].modified || (files[a].modified == files[b].modified && a < b)
}

/// Whether `order` lists all files, newer ones first.
pub open spec fn newest_first(files: Seq<LocalFile>, order: Seq<usize>) -> bool {
    &&& order.len() == files.len()
    &&& forall|i: int| 0 <= i < order.len() ==> (#[trigger] order[i]) < files.len()
    &&& forall|i: int, j: int|
        0 <= i < j < order.len() ==> newer(files, #[trigger] order[i] as int, #[trigger] order[j] as int)
}

fn order_by_age(files: &Vec<LocalFile>) -> (order: Vec<usize>)
    ensures
        newest_first(files@, order@),
{
    let mut order: Vec<usize> = Vec::new();
    let mut n: usize = 0;
    while n < files.len()
        invariant
            n <= files@.len(),
            order@.len() == n,
            forall|i: int| 0 <= i < n ==> (#[trigger] order@[i]) < n,
            forall|i: int, j: int|
                0 <= i < j < n ==> newer(
                    files@,
                    #[trigger] order@[i] as int,
                    #[trigger] order@[j] as int,
                ),
        decreases files@.len() - n,
    {
        let mut k: usize = n;
        while k > 0 && files[order[k - 1]].modified < files[n].modified
            invariant
                k <= n < files@.len(),
                order@.len() == n,
                forall|i: int| 0 <= i < n ==> (#[trigger] order@[i]) < n,
                forall|i: int, j: int|
                    0 <= i < j < n ==> newer(
                        files@,
                        #[trigger] order@[i] as int,
                        #[trigger] order@[j] as int,
                    ),
                forall|i: int|
                    k <= i < n ==> files@[(#[trigger] order@[i]) as int].modified
                        < files@[n as int].modified,
            decreases k,
        {
            k = k - 1;
        }
        let ghost before = order@;
        order.insert(k, n);
        assert forall|i: int, j: int| 0 <= i < j < n + 1 implies newer(
            files@,
            #[trigger] order@[i] as int,
            #[trigger] order@[j] as int,
        ) by {
            let a = if i < k {
                i
            } else {
                i - 1
            };
            let b = if j < k {
                j
            } else {
                j - 1
            };
            if i == k {
                assert(order@[j] == before[b]);
            } else if j == k {
                assert(order@[i] == before[a]);
                if k > 0 && a < k - 1 {
                    assert(newer(files@, before[a] as int, before[k - 1] as int));
                }
            } else {
                assert(order@[i] == before[a]);
                assert(order@[j] == before[b]);
            }
        }
        assert forall|i: int| 0 <= i < n + 1 implies (#[trigger] order@[i]) < n + 1 by {
            if i < k {
                assert(order@[i] == before[i]);
            } else if i > k {
                assert(order@[i] == before[i - 1]);
            }
        }
        n = n + 1;
    }
    order
}

/// A file name without its extension for documents.
pub open spec fn document_id(name: Seq<char>) -> Seq<char> {
    if crate::strings::occurs_at(name, ".pdf"@, name.len() - 4) {
        name.take(name.len() - 4)
    } else {
        name
    }
}

fn document_id_of(name: &str) -> (r: String)
    ensures
        r@ == document_id(name@),
{
    proof {
        reveal_strlit(".pdf");
    }
    if ends_with(name, ".pdf") {
        let s = to_chars(name);
        assert(s@.subrange(0, s@.len() - 4) =~= s@.take(s@.len() - 4));
        return from_range(&s, 0, s.len() - 4);
    }
    name.to_owned()
}

/// Whether a download of a file is listed: under its path, or under its name.
pub open spec fn listed(tasks: Seq<TaskView>, file: LocalFile) -> bool {
    exists|i: int|
        0 <= i < tasks.len() && ((#[trigger] tasks[i]).pdf_path == Some(file.path@) || tasks[i].id
            == document_id(file.name@))
}

/// Whether a file was left behind when the library moved its contents elsewhere.
pub open spec fn left_behind(file: LocalFile, directory: Seq<char>) -> bool {
    file.twin matches Some(twin) && !inside(twin.1@, directory)
}

/// The download that stands for a file.
pub open spec fn found_task(file: LocalFile) -> TaskView {
    TaskView {
        id: document_id(file.name@),
        title: file.name@,
        downloaded: file.size,
        total: Some(file.size),
        paper_id: match file.twin {
            Some(twin) => Some(twin.0),
            None => file.paper,
        },
        linked_paper: None,
        pdf_path: Some(file.path@),
        status: StatusView::Completed,
        remote_paper: None,
        failed_at: None,
    }
}

/// Whether a file of the download folder is a document.
pub open spec fn is_document(file: LocalFile) -> bool {
    extension(file.path@) == Some("pdf"@)
}

/// The downloads, with those added that the first `n` files in `order` stand for.
pub open spec fn discovered(
    tasks: Seq<TaskView>,
    files: Seq<LocalFile>,
    order: Seq<usize>,
    directory: Seq<char>,
    n: int,
) -> Seq<TaskView>
    decreases n,
{
    if n <= 0 {
        tasks
    } else {
        let before = discovered(tasks, files, order, directory, n - 1);
        let file = files[order[n - 1] as int];
        if is_document(file) && !listed(before, file) && !left_behind(file, directory) {
            before.push(found_task(file))
        } else {
            before
        }
    }
}

/// The files among the first `n` in `order` that have to be removed.
pub open spec fn stale_files(
    tasks: Seq<TaskView>,
    files: Seq<LocalFile>,
    order: Seq<usize>,
    directory: Seq<char>,
    n: int,
) -> Seq<Seq<char>>
    decreases n,
{
    if n <= 0 {
        Seq::empty()
    } else {
        let before = stale_files(tasks, files, order, directory, n - 1);
        let now = discovered(tasks, files, order, directory, n - 1);
        let file = files[order[n - 1] as int];
        if is_document(file) && !listed(now, file) && left_behind(file, directory) {
            before.push(file.path@)
        } else {
            before
        }
    }
}

fn is_listed(tasks: &Vec<DownloadTask>, file: &LocalFile) -> (r: bool)
    ensures
        r == listed(tasks_view(tasks@), *file),
{
    let id = document_id_of(file.name.as_str());
    let mut i: usize = 0;
    while i < tasks.len()
        invariant
            i <= tasks@.len(),
            id@ == document_id(file.name@),
            forall|j: int|
                0 <= j < i ==> (#[trigger] tasks_view(tasks@)[j]).pdf_path != Some(file.path@)
                    && tasks_view(tasks@)[j].id != document_id(file.name@),
        decreases tasks@.len() - i,
    {
        let same_path: bool = match &tasks[i].pdf_path {
            Some(path) => same_text(path.as_str(), file.path.as_str()),
            None => false,
        };
        if same_path || same_text(tasks[i].id.as_str(), id.as_str()) {
            assert(tasks_view(tasks@)[i as int].id == tasks@[i as int].id@);
            return true;
        }
        i = i + 1;
    }
    false
}

/// Lists the documents of the download folder that are not listed yet, newer ones
/// first. Gives the files that were left behind and have to be removed.
pub fn discover_local_downloads(
    tasks: &mut Vec<DownloadTask>,
    files: &Vec<LocalFile>,
    directory: &str,
) -> (stale: Vec<String>)
    ensures
        exists|order: Seq<usize>|
            {
                &&& #[trigger] newest_first(files@, order)
                &&& tasks_view(final(tasks)@) == discovered(
                    tasks_view(old(tasks)@),
                    files@,
                    order,
                    directory@,
                    files@.len() as int,
                )
                &&& texts(stale@) == stale_files(
                    tasks_view(old(tasks)@),
                    files@,
                    order,
                    directory@,
                    files@.len() as int,
                )
            },
{
    let order = order_by_age(files);
    let ghost first = tasks_view(tasks@);
    let mut stale: Vec<String> = Vec::new();
    assert(texts(stale@) =~= Seq::empty());
    let mut n: usize = 0;
    while n < files.len()
        invariant
            n <= files@.len(),
            newest_first(files@, order@),
            tasks_view(tasks@) == discovered(first, files@, order@, directory@, n as int),
            texts(stale@) == stale_files(first, files@, order@, directory@, n as int),
        decreases files@.len() - n,
    {
        let k: usize = order[n];
        let file = &files[k];
        let document: bool = match extension_of(file.path.as_str()) {
            Some(e) => same_text(e.as_str(), "pdf"),
            None => false,
        };
        if document && !is_listed(tasks, file) {
            let behind: bool = match &file.twin {
                Some(twin) => !is_inside(twin.1.as_str(), directory),
                None => false,
            };
            if behind {
                let ghost before = stale@;
                stale.push(file.path.clone());
                assert(texts(stale@) =~= texts(before).push(file.path@));
            } else {
                let paper_id: Option<i64> = match &file.twin {
                    Some(twin) => Some(twin.0),
                    None => file.paper,
                };
                let ghost before = tasks@;
                tasks.push(
                    DownloadTask {
                        id: document_id_of(file.name.as_str()),
                        title: file.name.clone(),
                        downloaded: file.size,
                        total: Some(file.size),
                        paper_id,
                        linked_paper: None,
                        pdf_path: Some(file.path.clone()),
                        status: DownloadStatus::Completed,
                        remote_paper: None,
                        failed_at: None,
                    },
                );
                assert(tasks_view(tasks@) =~= tasks_view(before).push(found_task(*file)));
            }
        }
        n = n + 1;
    }
    stale
}

/// No file is listed twice: a second look at the same files adds nothing, and
/// removes nothing that was not to be removed before.
pub proof fn lemma_discovery_settles(
    tasks: Seq<TaskView>,
    files: Seq<LocalFile>,
    order: Seq<usize>,
    directory: Seq<char>,
    n: int,
)
    requires
        newest_first(files, order),
        0 <= n <= files.len(),
    ensures
        discovered(
            discovered(tasks, files, order, directory, files.len() as int),
            files,
            order,
            directory,
            n,
        ) == discovered(tasks, files, order, directory, files.len() as int),
    decreases n,
{
    if n > 0 {
        lemma_discovery_settles(tasks, files, order, directory, n - 1);
        let all = discovered(tasks, files, order, directory, files.len() as int);
        let file = files[order[n - 1] as int];
        if is_document(file) && !left_behind(file, directory) {
            let before = discovered(tasks, files, order, directory, n - 1);
            let now = discovered(tasks, files, order, directory, n);
            if !listed(before, file) {
                assert(now[before.len() as int].id == document_id(file.name@));
            } else {
                let i = choose|i: int|
                    0 <= i < before.len() && ((#[trigger] before[i]).pdf_path == Some(file.path@)
                        || before[i].id == document_id(file.name@));
                assert(now[i] == before[i]);
            }
            assert(listed(now, file));
            lemma_discovered_grows(tasks, files, order, directory, n, files.len() as int);
            let i = choose|i: int|
                0 <= i < now.len() && ((#[trigger] now[i]).pdf_path == Some(file.path@)
                    || now[i].id == document_id(file.name@));
            assert(all[i] == now[i]);
            assert(listed(all, file));
        }
    }
}

proof fn lemma_discovered_grows(
    tasks: Seq<TaskView>,
    files: Seq<LocalFile>,
    order: Seq<usize>,
    directory: Seq<char>,
    n: int,
    m: int,
)
    requires
        0 <= n <= m,
    ensures
        discovered(tasks, files, order, directory, n).len() <= discovered(
            tasks,
            files,
            order,
            directory,
            m,
        ).len(),
        forall|i: int|
            0 <= i < discovered(tasks, files, order, directory, n).len()
                ==> #[trigger] discovered(tasks, files, order, directory, m)[i] == discovered(
                tasks,
                files,
                order,
                directory,
                n,
            )[i],
    decreases m,
{
    if n < m {
        lemma_discovered_grows(tasks, files, order, directory, n, m - 1);
    }
}

/// Whether a download is not finished.
pub open spec fn unfinished() -> spec_fn(DownloadTask) -> bool {
    |t: DownloadTask| !(t.status is Completed)
}

/// Position among the `n` first shown rows of the first one under a path.
pub open spec fn row_of_path(tasks: Seq<DownloadTask>, rows: Seq<int>, path: Seq<char>, i: int) -> Option<
    int,
>
    decreases rows.len() - i,
{
    if i >= rows.len() {
        None
    } else if opt_text(tasks[rows[i]].pdf_path) == Some(path) {
        Some(i)
    } else {
        row_of_path(tasks, rows, path, i + 1)
    }
}

/// The row that stays selected: the one of the same file, or else the same row
/// as far as there are so many.
pub open spec fn reselected(before: App, tasks: Seq<DownloadTask>) -> int {
    let rows = positions(shown_downloads(tasks, before.search.query@));
    let same = match selected_download(before) {
        Some(task) => match task.pdf_path {
            Some(path) => row_of_path(tasks, rows, path@, 0),
            None => None,
        },
        None => None,
    };
    match same {
        Some(i) => i,
        None => clamped(before.downloads.selected, rows.len()) as int,
    }
}

fn find_row(app: &App, path: &Option<String>) -> (r: usize)
    ensures
        ({
            let tasks = app.downloads.tasks@;
            let rows = positions(shown_downloads(tasks, app.search.query@));
            let same = match *path {
                Some(p) => row_of_path(tasks, rows, p@, 0),
                None => None,
            };
            r == (match same {
                Some(i) => i,
                None => clamped(app.downloads.selected, rows.len()) as int,
            })
        }),
{
    let shown = filtered_downloads(&app.downloads.tasks, app.search.query.as_str());
    let count: usize = crate::rows::count_marked(&shown);
    let ghost rows = positions(shown@);
    match path {
        Some(p) => {
            let mut i: usize = 0;
            while i < count
                invariant
                    i <= count,
                    *path == Some(*p),
                    count == rows.len(),
                    rows == positions(shown@),
                    shown@ == shown_downloads(app.downloads.tasks@, app.search.query@),
                    row_of_path(app.downloads.tasks@, rows, p@, 0) == row_of_path(
                        app.downloads.tasks@,
                        rows,
                        p@,
                        i as int,
                    ),
                decreases count - i,
            {
                match nth_marked(&shown, i) {
                    Some(k) => {
                        let same: bool = match &app.downloads.tasks[k].pdf_path {
                            Some(q) => same_text(q.as_str(), p.as_str()),
                            None => false,
                        };
                        if same {
                            return i;
                        }
                    },
                    None => {},
                }
                i = i + 1;
            }
        },
        None => {},
    }
    clamp_selected(app.downloads.selected, count)
}

/// Lists the downloads anew: those that are not finished, and the documents of
/// the download folder. The selected one stays selected.
pub fn refresh_downloads_from_dir(app: &mut App, files: &Vec<LocalFile>, directory: &str) -> (stale: Vec<
    String,
>)
    ensures
        *final(app) == (App {
            downloads: DownloadsState {
                tasks: final(app).downloads.tasks,
                selected: reselected(*old(app), final(app).downloads.tasks@) as usize,
            },
            ..*old(app)
        }),
        exists|order: Seq<usize>|
            {
                let kept = tasks_view(old(app).downloads.tasks@.filter(unfinished()));
                &&& #[trigger] newest_first(files@, order)
                &&& tasks_view(final(app).downloads.tasks@) == discovered(
                    kept,
                    files@,
                    order,
                    directory@,
                    files@.len() as int,
                )
                &&& texts(stale@) == stale_files(
                    kept,
                    files@,
                    order,
                    directory@,
                    files@.len() as int,
                )
            },
{
    let path: Option<String> = match crate::workspaces::current_download(app) {
        Some(task) => crate::model::copy_opt(&task.pdf_path),
        None => None,
    };
    let ghost keep = unfinished();
    let mut i: usize = 0;
    while i < app.downloads.tasks.len()
        invariant
            i <= app.downloads.tasks@.len(),
            keep == unfinished(),
            app.downloads.tasks@.filter(keep) == old(app).downloads.tasks@.filter(keep),
            forall|j: int| 0 <= j < i ==> keep(#[trigger] app.downloads.tasks@[j]),
            *app == (App {
                downloads: DownloadsState { tasks: app.downloads.tasks, ..old(app).downloads },
                ..*old(app)
            }),
        decreases app.downloads.tasks@.len() - i,
    {
        if matches!(app.downloads.tasks[i].status, DownloadStatus::Completed) {
            proof {
                lemma_filter_remove(app.downloads.tasks@, i as int, keep);
            }
            let _ = app.downloads.tasks.remove(i);
        } else {
            i = i + 1;
        }
    }
    proof {
        lemma_filter_all(app.downloads.tasks@, keep);
    }
    let stale = discover_local_downloads(&mut app.downloads.tasks, files, directory);
    app.downloads.selected = find_row(app, &path);
    stale
}

// ---------------------------------------------------------------------------
// What holds of all downloads
// ---------------------------------------------------------------------------

/// A title that neither starts nor ends with white space is kept as it is in a file name,
/// character by character, but that a slash becomes an underscore and a line break or a
/// tab a space.
pub proof fn lemma_title_is_kept(title: Seq<char>)
    requires
        title.len() > 0 ==> !whitespace(title[0]) && !whitespace(title.last()),
    ensures
        ({
            let name = file_title(title, false);
            &&& name.len() == title.len()
            &&& forall|i: int|
                0 <= i < title.len() ==> #[trigger] name[i] == (if title[i] == '/' {
                    '_'
                } else if title[i] == '\n' || title[i] == '\r' || title[i] == '\t' {
                    ' '
                } else {
                    title[i]
                })
        }),
{
    let raw = Seq::new(title.len(), |i: int| file_char(title[i], false));
    if title.len() > 0 {
        assert(raw[0] == file_char(title[0], false));
        assert(raw.last() == file_char(title.last(), false));
    }
    crate::strings::lemma_trimmed_same(raw);
}

/// The same on Windows, where further characters are not allowed in file names, and a
/// name does not end with a dot.
pub proof fn lemma_title_is_kept_on_windows(title: Seq<char>)
    requires
        title.len() > 0 ==> !whitespace(title[0]) && !whitespace(title.last()) && !control(title[0])
            && !control(title.last()) && title.last() != '.',
    ensures
        ({
            let name = file_title(title, true);
            &&& name.len() == title.len()
            &&& forall|i: int|
                0 <= i < title.len() ==> #[trigger] name[i] == (if title[i] == '/' || title[i]
                    == ':' || title[i] == '*' || title[i] == '?' || title[i] == '"' || title[i]
                    == '<' || title[i] == '>' || title[i] == '|' {
                    '_'
                } else if title[i] == '\n' || title[i] == '\r' || title[i] == '\t' || control(
                    title[i],
                ) {
                    ' '
                } else {
                    title[i]
                })
        }),
{
    let raw = Seq::new(title.len(), |i: int| file_char(title[i], true));
    if title.len() > 0 {
        assert(raw[0] == file_char(title[0], true));
        assert(raw.last() == file_char(title.last(), true));
    }
    crate::strings::lemma_trimmed_same(raw);
    assert(without_dots(raw) == raw);
}

/// A paper is downloaded into the folder of the downloads, whatever its title holds: to a
/// document named by its title or, where nothing of that is left, by the last part of its
/// identifier.
pub proof fn lemma_download_lands_in_its_folder(
    paper: RemotePaper,
    directory: Seq<char>,
    windows: bool,
)
    requires
        plain_folder(directory),
    ensures
        ({
            let title = file_title(paper.title@, windows);
            let name = (if title.len() > 0 {
                title
            } else {
                crate::paths::last_part(paper.id@)
            }) + ".pdf"@;
            let path = download_path(paper, directory, windows);
            &&& path == directory + seq!['/'] + name
            &&& components(path) == components(directory).push(name)
            &&& inside(path, directory)
        }),
{
    reveal_strlit(".pdf");
    let title = file_title(paper.title@, windows);
    lemma_file_title_safe(paper.title@, windows);
    let id = paper.id@;
    let b = crate::paths::behind_slash(id, id.len() as int);
    crate::paths::lemma_behind_slash(id, id.len() as int);
    lemma_nothing_behind(id, id.len() as int);
    let name = download_name(paper, windows) + ".pdf"@;
    assert forall|i: int| 0 <= i < name.len() implies #[trigger] name[i] != '/' by {
        if i < name.len() - 4 {
            assert(name[i] == download_name(paper, windows)[i]);
            if title.len() == 0 {
                assert(name[i] == id[b + i]);
            } else {
                assert(name[i] == title[i]);
            }
        } else {
            assert(name[i] == ".pdf"@[i - (name.len() - 4)]);
        }
    }
    assert(entry_name(name));
    crate::paths::lemma_entry_of_folder(directory, name, name);
    assert(components(directory).push(name).take(components(directory).len() as int)
        =~= components(directory));
}

proof fn lemma_nothing_behind(s: Seq<char>, k: int)
    requires
        0 <= k <= s.len(),
    ensures
        forall|i: int| crate::paths::behind_slash(s, k) <= i < k ==> #[trigger] s[i] != '/',
    decreases k,
{
    if k > 0 && s[k - 1] != '/' {
        lemma_nothing_behind(s, k - 1);
    }
}

/// The temporary file of a document is named like it with `.part` behind, and a finished
/// temporary file takes the name of its document again.
pub proof fn lemma_temporary_file_takes_its_name(head: Seq<char>, stem: Seq<char>)
    requires
        head.len() > 0 ==> head.last() == '/',
        stem.len() > 0,
        forall|i: int| 0 <= i < stem.len() ==> #[trigger] stem[i] != '/',
    ensures
        with_extension(head + stem + ".pdf"@, "pdf.part"@) == head + stem + ".pdf"@ + ".part"@,
        with_extension(head + stem + ".pdf"@ + ".part"@, ""@) == head + stem + ".pdf"@,
{
    reveal_strlit(".pdf");
    reveal_strlit("pdf.part");
    reveal_strlit(".part");
    reveal_strlit("");
    let pdf = seq!['p', 'd', 'f'];
    let part = seq!['p', 'a', 'r', 't'];
    crate::paths::lemma_extension_of_entry(head, stem, pdf, "pdf.part"@);
    assert(head + (stem + seq!['.'] + pdf) =~= head + stem + ".pdf"@);
    assert(head + stem + seq!['.'] + "pdf.part"@ =~= head + stem + ".pdf"@ + ".part"@);
    let whole = stem + ".pdf"@;
    assert forall|i: int| 0 <= i < whole.len() implies #[trigger] whole[i] != '/' by {
        if i < stem.len() {
            assert(whole[i] == stem[i]);
        } else {
            assert(whole[i] == ".pdf"@[i - stem.len()]);
        }
    }
    crate::paths::lemma_extension_of_entry(head, whole, part, ""@);
    assert(head + (whole + seq!['.'] + part) =~= head + stem + ".pdf"@ + ".part"@);
    assert(head + whole =~= head + stem + ".pdf"@);
}

/// A report changes what it is about and nothing else of a download: how much there is,
/// how much has come, that the file is there, or that and when it failed and why.
pub proof fn lemma_reports_are_noted(task: DownloadTask, event: DownloadEvent, now: u64)
    ensures
        ({
            let after = reported(task, event, now);
            &&& after.id == task.id && after.title == task.title && after.paper_id == task.paper_id
            &&& after.pdf_path == task.pdf_path && after.remote_paper == task.remote_paper
            &&& after.linked_paper == task.linked_paper
            &&& event matches DownloadEvent::Started { id, total } ==> after.status is Running
                && after.total == total && after.downloaded == task.downloaded
            &&& event matches DownloadEvent::Progress { id, downloaded } ==> after.status is Running
                && after.downloaded == downloaded && after.total == task.total
            &&& event matches DownloadEvent::Completed { id, path } ==> after.status
                is ExtractingMetadata && after.downloaded == task.downloaded && after.total
                == task.total
            &&& event matches DownloadEvent::Failed { id, error } ==> after.status
                == DownloadStatus::Failed(error) && after.failed_at == Some(now)
            &&& !(event is Failed) ==> after.failed_at == task.failed_at
        }),
{
}

/// A download that has failed leaves the list two minutes later, and no other does.
pub proof fn lemma_failures_expire(task: DownloadTask, now: u64)
    ensures
        not_expired(now)(task) <==> !(task.status is Failed && task.failed_at is Some
            && task.failed_at->0 + 120_000 <= now),
        !(task.status is Failed) ==> not_expired(now)(task),
{
}

/// The selected row stays where it is while there is such a row, and else becomes the
/// last one.
pub proof fn lemma_selection_stays_in_reach(selected: usize, len: nat)
    requires
        len <= usize::MAX,
    ensures
        len > 0 ==> clamped(selected, len) < len,
        selected < len ==> clamped(selected, len) == selected,
        len > 0 && selected >= len ==> clamped(selected, len) == len - 1,
        len == 0 ==> clamped(selected, len) == 0,
{
}

proof fn lemma_first_task(tasks: Seq<DownloadTask>, id: Seq<char>, i: int, k: int)
    requires
        0 <= i <= k < tasks.len(),
        tasks[k].id@ == id,
        forall|j: int| i <= j < k ==> (#[trigger] tasks[j]).id@ != id,
    ensures
        task_place(tasks, id, i) == Some(k),
    decreases k - i,
{
    if i < k {
        lemma_first_task(tasks, id, i + 1, k);
    }
}

/// A report goes to the first download with its identifier, and to none where there is
/// none.
pub proof fn lemma_report_finds_its_download(tasks: Seq<DownloadTask>, id: Seq<char>)
    ensures
        match task_place(tasks, id, 0) {
            Some(k) => 0 <= k < tasks.len() && tasks[k].id@ == id && forall|j: int|
                0 <= j < k ==> (#[trigger] tasks[j]).id@ != id,
            None => forall|j: int| 0 <= j < tasks.len() ==> (#[trigger] tasks[j]).id@ != id,
        },
{
    if exists|j: int| 0 <= j < tasks.len() && (#[trigger] tasks[j]).id@ == id {
        let k = lemma_least_task(tasks, id, 0);
        lemma_first_task(tasks, id, 0, k);
    } else {
        lemma_task_place(tasks, id, 0);
    }
}

proof fn lemma_least_task(tasks: Seq<DownloadTask>, id: Seq<char>, i: int) -> (k: int)
    requires
        0 <= i,
        exists|j: int| i <= j < tasks.len() && (#[trigger] tasks[j]).id@ == id,
    ensures
        i <= k < tasks.len(),
        tasks[k].id@ == id,
        forall|j: int| i <= j < k ==> (#[trigger] tasks[j]).id@ != id,
    decreases tasks.len() - i,
{
    if tasks[i].id@ == id {
        i
    } else {
        lemma_least_task(tasks, id, i + 1)
    }
}

/// A document in the download folder is known by its name without the extension.
pub proof fn lemma_document_is_known_by_its_name(stem: Seq<char>)
    ensures
        document_id(stem + ".pdf"@) == stem,
        stem.len() < 4 ==> document_id(stem) == stem,
{
    reveal_strlit(".pdf");
    let name = stem + ".pdf"@;
    assert(name.subrange(name.len() - 4, name.len() as int) =~= ".pdf"@);
    assert(name.take(name.len() - 4) =~= stem);
}

/// A file of the download folder stands for a finished download of all of its bytes, of
/// the paper with the same contents or, where there is none, of the one under its path.
/// It is left behind only where the library has its contents at another place.
pub proof fn lemma_found_files_are_finished(file: LocalFile, directory: Seq<char>)
    ensures
        ({
            let task = found_task(file);
            &&& task.status is Completed
            &&& task.downloaded == file.size && task.total == Some(file.size)
            &&& task.pdf_path == Some(file.path@) && task.title == file.name@
            &&& file.twin matches Some(twin) ==> task.paper_id == Some(twin.0)
            &&& file.twin is None ==> task.paper_id == file.paper
            &&& file.twin is None ==> !left_behind(file, directory)
            &&& file.twin matches Some(twin) ==> (left_behind(file, directory) <==> !inside(
                twin.1@,
                directory,
            ))
        }),
{
}

/// The file that was selected stays selected while it is shown, wherever it has moved to.
pub proof fn lemma_selected_file_stays_selected(
    before: App,
    tasks: Seq<DownloadTask>,
    task: DownloadTask,
    k: int,
)
    requires
        selected_download(before) == Some(task),
        task.pdf_path is Some,
        0 <= k < positions(shown_downloads(tasks, before.search.query@)).len(),
        ({
            let rows = positions(shown_downloads(tasks, before.search.query@));
            &&& tasks[rows[k]].pdf_path is Some && tasks[rows[k]].pdf_path->0@ == task.pdf_path->0@
            &&& forall|j: int|
                0 <= j < k ==> opt_text(tasks[#[trigger] rows[j]].pdf_path) != Some(
                    task.pdf_path->0@,
                )
        }),
    ensures
        reselected(before, tasks) == k,
{
    let rows = positions(shown_downloads(tasks, before.search.query@));
    lemma_row_at(tasks, rows, task.pdf_path->0@, 0, k);
}

proof fn lemma_row_at(
    tasks: Seq<DownloadTask>,
    rows: Seq<int>,
    path: Seq<char>,
    i: int,
    k: int,
)
    requires
        0 <= i <= k < rows.len(),
        opt_text(tasks[rows[k]].pdf_path) == Some(path),
        forall|j: int| i <= j < k ==> opt_text(tasks[#[trigger] rows[j]].pdf_path) != Some(path),
    ensures
        row_of_path(tasks, rows, path, i) == Some(k),
    decreases k - i,
{
    if i < k {
        assert(opt_text(tasks[rows[i]].pdf_path) != Some(path));
        lemma_row_at(tasks, rows, path, i + 1, k);
    }
}

/// Only documents whose contents the library keeps outside of the folder of downloads are
/// removed from it.
pub proof fn lemma_only_left_files_are_removed(
    tasks: Seq<TaskView>,
    files: Seq<LocalFile>,
    order: Seq<usize>,
    directory: Seq<char>,
    n: int,
    i: int,
)
    requires
        0 <= i < stale_files(tasks, files, order, directory, n).len(),
    ensures
        ({
            let path = stale_files(tasks, files, order, directory, n)[i];
            exists|k: int| #![trigger order[k]]
                0 <= k < n && files[order[k] as int].path@ == path && files[order[k] as int].twin
                    is Some && !inside((files[order[k] as int].twin->0).1@, directory) && extension(
                    path,
                ) == Some("pdf"@)
        }),
    decreases n,
{
    let before = stale_files(tasks, files, order, directory, n - 1);
    if i < before.len() {
        lemma_only_left_files_are_removed(tasks, files, order, directory, n - 1, i);
        let path = before[i];
        let k = choose|k: int| #![trigger order[k]]
            0 <= k < n - 1 && files[order[k] as int].path@ == path && files[order[k] as int].twin
                is Some && !inside((files[order[k] as int].twin->0).1@, directory) && extension(path)
                == Some("pdf"@);
        assert(files[order[k] as int].path@ == path);
    } else {
        let k = n - 1;
        assert(files[order[k] as int].path@ == stale_files(tasks, files, order, directory, n)[i]);
    }
}

/// A download that is tried again goes to the same file.
pub proof fn lemma_retry_goes_to_the_same_file(task: DownloadTask, directory: Seq<char>)
    requires
        crate::paths::plain_folder(directory),
        crate::paths::entry_name(task.id@),
    ensures
        task.pdf_path is Some ==> retry_path(task, directory) == task.pdf_path->0@,
        task.pdf_path is None ==> retry_path(task, directory) == directory + seq!['/'] + (task.id@
            + seq!['.', 'p', 'd', 'f']),
{
    reveal_strlit(".pdf");
    assert(".pdf"@ =~= seq!['.', 'p', 'd', 'f']);
    assert(task.id@[0] != '/');
    assert((task.id@ + ".pdf"@)[0] == task.id@[0]);
    assert(directory.push('/') =~= directory + seq!['/']);
}

} // verus!
