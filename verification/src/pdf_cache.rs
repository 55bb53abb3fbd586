//! What is kept of the pages of documents, and the work on them that is under way.

use crate::kitty::{EncodedFrame, FrameView};
use crate::raster::Raster;
use crate::paths::{opt_key, path_key, same_path, PathKey};
use vstd::prelude::*;

verus! {

/// Resolution at which pages are drawn, in dots per inch.
pub const DPI: u32 = 150;

/// Number of pages that are drawn at the same time.
pub const MAX_CONCURRENT_RENDERS: usize = 2;

/// Something that belongs to a document.
#[derive(Debug)]
pub struct Owned<T> {
    pub path: String,
    pub item: T,
}

/// A page of a document as it was at some time, for a width of the screen.
#[derive(Clone, Copy, Debug, PartialEq, Eq, Structural)]
pub struct PageId {
    pub generation: u64,
    pub page: usize,
    pub dpi: u32,
    pub width: u32,
}

/// A page that has been drawn.
#[derive(Debug)]
pub struct RenderedPage {
    pub id: PageId,
    pub image: Raster,
}

/// A page that has to be drawn.
#[derive(Clone, Copy, Debug, PartialEq, Eq, Structural)]
pub struct Job {
    pub id: PageId,
    pub priority: bool,
}

/// The number of pages of a document as it was at some time.
#[derive(Clone, Copy, Debug, PartialEq, Eq, Structural)]
pub struct PageCount {
    pub generation: u64,
    pub count: usize,
}

/// What part of which page is on the screen.
#[derive(Debug)]
pub struct CropKey {
    pub path: String,
    pub page: usize,
    pub dpi: u32,
    pub pixel_w: u32,
    pub crop_y: u32,
    pub crop_h: u32,
    pub page_fit: bool,
}

/// What part of which page is on the screen.
#[verifier::ext_equal]
pub struct CropView {
    pub path: PathKey,
    pub page: usize,
    pub dpi: u32,
    pub pixel_w: u32,
    pub crop_y: u32,
    pub crop_h: u32,
    pub page_fit: bool,
}

impl View for CropKey {
    type V = CropView;

    open spec fn view(&self) -> CropView {
        CropView {
            path: path_key(self.path@),
            page: self.page,
            dpi: self.dpi,
            pixel_w: self.pixel_w,
            crop_y: self.crop_y,
            crop_h: self.crop_h,
            page_fit: self.page_fit,
        }
    }
}

/// A position in a document: a page, and how far it is scrolled, in thousandths of
/// a pixel.
#[derive(Clone, Copy, Debug, PartialEq, Eq, Structural)]
pub struct Position {
    pub page: usize,
    pub scroll: i128,
}

/// What is kept of the pages of documents.
#[derive(Debug)]
pub struct PageCache {
    pub pages: Vec<Owned<RenderedPage>>,
    pub in_flight: Vec<Owned<PageId>>,
    pub document_generations: Vec<Owned<u64>>,
    pub page_counts: Vec<Owned<PageCount>>,
    pub page_count_in_flight: Vec<Owned<u64>>,
    pub document_widths: Vec<Owned<u32>>,
    pub temp_files: Vec<Owned<String>>,
    pub render_queue: Vec<Owned<Job>>,
    pub active_renders: usize,
    pub render_cancellations: Vec<Owned<PageId>>,
    pub last_viewport_h: u32,
    pub target: Position,
    pub current: Position,
    /// Whether the time of the last picture is known.
    pub timed: bool,
    pub last_crop_key: Option<CropKey>,
    pub last_encoded: Option<EncodedFrame>,
    pub next_kitty_id: u32,
    pub pending_kitty_deletes: Vec<u32>,
    /// The image that the terminal holds, and the document that it is of.
    pub resident_kitty_image: Option<Owned<u32>>,
}

/// What is kept of the pages of documents.
#[verifier::ext_equal]
pub struct CacheModel {
    pub pages: Seq<(PathKey, RenderedPage)>,
    pub in_flight: Seq<(PathKey, PageId)>,
    pub generations: Seq<(PathKey, u64)>,
    pub counts: Seq<(PathKey, PageCount)>,
    pub counting: Seq<(PathKey, u64)>,
    pub widths: Seq<(PathKey, u32)>,
    pub temp_files: Seq<(PathKey, String)>,
    pub queue: Seq<(PathKey, Job)>,
    pub active: usize,
    pub cancellations: Seq<(PathKey, PageId)>,
    pub viewport_h: u32,
    pub target: Position,
    pub current: Position,
    pub timed: bool,
    pub crop: Option<CropView>,
    pub encoded: Option<FrameView>,
    pub next_id: u32,
    pub deletes: Seq<u32>,
    pub resident: Option<(PathKey, u32)>,
}

/// Things with the document that each belongs to.
pub open spec fn items<T>(v: Seq<Owned<T>>) -> Seq<(PathKey, T)> {
    v.map_values(|o: Owned<T>| (path_key(o.path@), o.item))
}

/// The crop of an encoded picture.
pub open spec fn opt_crop(v: Option<CropKey>) -> Option<CropView> {
    match v {
        Some(k) => Some(k@),
        None => None,
    }
}

/// An encoded picture.
pub open spec fn opt_frame(v: Option<EncodedFrame>) -> Option<FrameView> {
    match v {
        Some(f) => Some(f@),
        None => None,
    }
}

impl View for PageCache {
    type V = CacheModel;

    open spec fn view(&self) -> CacheModel {
        CacheModel {
            pages: items(self.pages@),
            in_flight: items(self.in_flight@),
            generations: items(self.document_generations@),
            counts: items(self.page_counts@),
            counting: items(self.page_count_in_flight@),
            widths: items(self.document_widths@),
            temp_files: items(self.temp_files@),
            queue: items(self.render_queue@),
            active: self.active_renders,
            cancellations: items(self.render_cancellations@),
            viewport_h: self.last_viewport_h,
            target: self.target,
            current: self.current,
            timed: self.timed,
            crop: opt_crop(self.last_crop_key),
            encoded: opt_frame(self.last_encoded),
            next_id: self.next_kitty_id,
            deletes: self.pending_kitty_deletes@,
            resident: match self.resident_kitty_image {
                Some(o) => Some((path_key(o.path@), o.item)),
                None => None,
            },
        }
    }
}

/// The start of a document.
pub open spec fn start() -> Position {
    Position { page: 1, scroll: 0 }
}

impl PageCache {
    /// Nothing is kept, and nothing is under way.
    pub fn new() -> (r: PageCache)
        ensures
            r@.pages.len() == 0,
            r@.in_flight.len() == 0,
            r@.generations.len() == 0,
            r@.counts.len() == 0,
            r@.counting.len() == 0,
            r@.widths.len() == 0,
            r@.temp_files.len() == 0,
            r@.queue.len() == 0,
            r@.active == 0,
            r@.cancellations.len() == 0,
            r@.viewport_h == 600,
            r@.target == start(),
            r@.current == start(),
            !r@.timed,
            r@.crop is None,
            r@.encoded is None,
            r@.next_id == 1,
            r@.deletes.len() == 0,
            r@.resident is None,
    {
        PageCache {
            pages: Vec::new(),
            in_flight: Vec::new(),
            document_generations: Vec::new(),
            page_counts: Vec::new(),
            page_count_in_flight: Vec::new(),
            document_widths: Vec::new(),
            temp_files: Vec::new(),
            render_queue: Vec::new(),
            active_renders: 0,
            render_cancellations: Vec::new(),
            last_viewport_h: 600,
            target: Position { page: 1, scroll: 0 },
            current: Position { page: 1, scroll: 0 },
            timed: false,
            last_crop_key: None,
            last_encoded: None,
            next_kitty_id: 1,
            pending_kitty_deletes: Vec::new(),
            resident_kitty_image: None,
        }
    }
}

// ---------------------------------------------------------------------------
// Collections by document
// ---------------------------------------------------------------------------

/// Tells what belongs to a document, or what does not.
pub open spec fn of_document<T>(path: PathKey, own: bool) -> spec_fn((PathKey, T)) -> bool {
    |e: (PathKey, T)| (e.0 == path) == own
}

/// What belongs to a document, or what does not, in the same order.
pub open spec fn kept<T>(v: Seq<(PathKey, T)>, path: PathKey, own: bool) -> Seq<(PathKey, T)> {
    v.filter(of_document::<T>(path, own))
}

/// Whether something belongs to a document.
pub open spec fn has_document<T>(v: Seq<(PathKey, T)>, path: PathKey) -> bool {
    exists|i: int| 0 <= i < v.len() && (#[trigger] v[i]).0 == path
}

/// What the first entry of a document holds, from position `k` on.
pub open spec fn first_of<T>(v: Seq<(PathKey, T)>, path: PathKey, k: int) -> Option<T>
    decreases v.len() - k,
{
    if k < 0 || k >= v.len() {
        None
    } else if v[k].0 == path {
        Some(v[k].1)
    } else {
        first_of(v, path, k + 1)
    }
}

/// What is noted for a document.
pub open spec fn value_of<T>(v: Seq<(PathKey, T)>, path: PathKey) -> Option<T> {
    first_of(v, path, 0)
}

/// The same with `item` as the only thing that is noted for a document.
pub open spec fn with_value<T>(v: Seq<(PathKey, T)>, path: PathKey, item: T) -> Seq<(PathKey, T)> {
    kept(v, path, false).push((path, item))
}

/// What is kept of something else is kept, and of the rest nothing.
pub proof fn lemma_kept<T>(v: Seq<(PathKey, T)>, path: PathKey, own: bool)
    ensures
        forall|i: int|
            0 <= i < kept(v, path, own).len() ==> ((#[trigger] kept(v, path, own)[i]).0 == path)
                == own,
        forall|i: int|
            #![trigger v[i]]
            0 <= i < v.len() && (v[i].0 == path) == own ==> kept(v, path, own).contains(v[i]),
{
    broadcast use vstd::seq_lib::group_filter_ensures;

    let p = of_document::<T>(path, own);
    assert forall|i: int| 0 <= i < kept(v, path, own).len() implies ((#[trigger] kept(
        v,
        path,
        own,
    )[i]).0 == path) == own by {
        assert(p(kept(v, path, own)[i]));
    }
    assert forall|i: int|
        #![trigger v[i]]
        0 <= i < v.len() && (v[i].0 == path) == own implies kept(v, path, own).contains(v[i]) by {
        assert(p(v[i]));
        assert(v.contains(v[i]));
    }
}

/// What is noted for a document can be looked up, and for others it stays.
pub proof fn lemma_with_value<T>(v: Seq<(PathKey, T)>, path: PathKey, item: T)
    ensures
        value_of(with_value(v, path, item), path) == Some(item),
{
    let k = kept(v, path, false);
    lemma_kept(v, path, false);
    let w = with_value(v, path, item);
    assert forall|i: int| 0 <= i < k.len() implies (#[trigger] w[i]).0 != path by {
        assert(w[i] == k[i]);
    }
    lemma_first_at(w, path, 0, k.len() as int);
}

proof fn lemma_first_at<T>(v: Seq<(PathKey, T)>, path: PathKey, k: int, i: int)
    requires
        0 <= k <= i < v.len(),
        v[i].0 == path,
        forall|j: int| k <= j < i ==> (#[trigger] v[j]).0 != path,
    ensures
        first_of(v, path, k) == Some(v[i].1),
    decreases i - k,
{
    if k < i {
        assert(v[k].0 != path);
        lemma_first_at(v, path, k + 1, i);
    }
}

fn keep_document<T>(v: &mut Vec<Owned<T>>, path: &str, own: bool)
    ensures
        items(final(v)@) == kept(items(old(v)@), path_key(path@), own),
{
    let ghost all = items(v@);
    let ghost p = of_document::<T>(path_key(path@), own);
    let n: usize = v.len();
    let mut rest: Vec<Owned<T>> = Vec::new();
    let mut i: usize = 0;
    assert(all.take(0) =~= Seq::empty());
    assert(all.skip(0) =~= all);
    reveal(Seq::filter);
    while i < n
        invariant
            i <= n == all.len(),
            p == of_document::<T>(path_key(path@), own),
            items(v@) == all.skip(i as int),
            items(rest@) == all.take(i as int).filter(p),
        decreases n - i,
    {
        proof {
            reveal(Seq::filter);
            assert(all.take(i + 1).drop_last() =~= all.take(i as int));
            assert(all.take(i + 1).last() == all[i as int]);
            assert(items(v@).len() == v@.len());
        }
        let ghost before = items(rest@);
        let ghost left = items(v@);
        let entry = v.remove(0);
        assert(items(v@) =~= left.skip(1));
        assert(left.skip(1) =~= all.skip(i + 1));
        assert((path_key(entry.path@), entry.item) == left[0]);
        let ghost e = (path_key(entry.path@), entry.item);
        if same_path(entry.path.as_str(), path) == own {
            rest.push(entry);
            assert(items(rest@) =~= before.push(e));
        }
        i = i + 1;
    }
    assert(all.take(i as int) =~= all);
    *v = rest;
}

fn find_document<T>(v: &Vec<Owned<T>>, path: &str) -> (r: Option<usize>)
    ensures
        match r {
            Some(i) => i < v@.len() && items(v@)[i as int].0 == path_key(path@) && value_of(
                items(v@),
                path_key(path@),
            ) == Some(v@[i as int].item),
            None => value_of(items(v@), path_key(path@)) is None && !has_document(items(v@), path_key(path@)),
        },
{
    let mut i: usize = 0;
    while i < v.len()
        invariant
            i <= v@.len(),
            value_of(items(v@), path_key(path@)) == first_of(items(v@), path_key(path@), i as int),
            forall|j: int| 0 <= j < i ==> (#[trigger] items(v@)[j]).0 != path_key(path@),
        decreases v@.len() - i,
    {
        if same_path(v[i].path.as_str(), path) {
            return Some(i);
        }
        i = i + 1;
    }
    None
}

/// Whether something belongs to a document.
pub fn holds_document<T>(v: &Vec<Owned<T>>, path: &str) -> (r: bool)
    ensures
        r == has_document(items(v@), path_key(path@)),
{
    match find_document(v, path) {
        Some(i) => {
            assert(items(v@)[i as int].0 == path_key(path@));
            true
        },
        None => false,
    }
}

/// What is noted for a document.
pub fn lookup<T: Copy>(v: &Vec<Owned<T>>, path: &str) -> (r: Option<T>)
    ensures
        r == value_of(items(v@), path_key(path@)),
{
    match find_document(v, path) {
        Some(i) => Some(v[i].item),
        None => None,
    }
}

pub(crate) fn note<T>(v: &mut Vec<Owned<T>>, path: &str, item: T)
    ensures
        items(final(v)@) == with_value(items(old(v)@), path_key(path@), item),
{
    keep_document(v, path, false);
    let ghost before = items(v@);
    v.push(Owned { path: path.to_owned(), item });
    assert(items(v@) =~= before.push((path_key(path@), item)));
}

fn add_item<T>(v: &mut Vec<Owned<T>>, path: &str, item: T)
    ensures
        items(final(v)@) == items(old(v)@).push((path_key(path@), item)),
{
    let ghost before = items(v@);
    v.push(Owned { path: path.to_owned(), item });
    assert(items(v@) =~= before.push((path_key(path@), item)));
}

/// Tells what is not the page of a document.
pub open spec fn other_page(path: PathKey, id: PageId) -> spec_fn((PathKey, PageId)) -> bool {
    |e: (PathKey, PageId)| e != (path, id)
}

/// The same without a page.
pub open spec fn without_page(v: Seq<(PathKey, PageId)>, path: PathKey, id: PageId) -> Seq<
    (PathKey, PageId),
> {
    v.filter(other_page(path, id))
}

fn drop_page(v: &mut Vec<Owned<PageId>>, path: &str, id: PageId)
    ensures
        items(final(v)@) == without_page(items(old(v)@), path_key(path@), id),
{
    let ghost all = items(v@);
    let ghost p = other_page(path_key(path@), id);
    let n: usize = v.len();
    let mut rest: Vec<Owned<PageId>> = Vec::new();
    let mut i: usize = 0;
    assert(all.take(0) =~= Seq::empty());
    assert(all.skip(0) =~= all);
    reveal(Seq::filter);
    while i < n
        invariant
            i <= n == all.len(),
            p == other_page(path_key(path@), id),
            items(v@) == all.skip(i as int),
            items(rest@) == all.take(i as int).filter(p),
        decreases n - i,
    {
        proof {
            reveal(Seq::filter);
            assert(all.take(i + 1).drop_last() =~= all.take(i as int));
            assert(all.take(i + 1).last() == all[i as int]);
            assert(items(v@).len() == v@.len());
        }
        let ghost before = items(rest@);
        let ghost left = items(v@);
        let entry = v.remove(0);
        assert(items(v@) =~= left.skip(1));
        assert(left.skip(1) =~= all.skip(i + 1));
        assert((path_key(entry.path@), entry.item) == left[0]);
        let ghost e = (path_key(entry.path@), entry.item);
        if !(same_path(entry.path.as_str(), path) && entry.item == id) {
            rest.push(entry);
            assert(items(rest@) =~= before.push(e));
        }
        i = i + 1;
    }
    assert(all.take(i as int) =~= all);
    *v = rest;
}

fn holds_page(v: &Vec<Owned<PageId>>, path: &str, id: PageId) -> (r: bool)
    ensures
        r == items(v@).contains((path_key(path@), id)),
{
    let mut i: usize = 0;
    while i < v.len()
        invariant
            i <= v@.len(),
            forall|j: int| 0 <= j < i ==> #[trigger] items(v@)[j] != (path_key(path@), id),
        decreases v@.len() - i,
    {
        if same_path(v[i].path.as_str(), path) && v[i].item == id {
            assert(items(v@)[i as int] == (path_key(path@), id));
            return true;
        }
        i = i + 1;
    }
    false
}

// ---------------------------------------------------------------------------
// Cancelling
// ---------------------------------------------------------------------------

/// Work that is not needed any more.
#[derive(Debug)]
pub enum Stale {
    /// That on other documents.
    Others { path: String },
    /// That on a document.
    Document { path: String },
    /// That on a document for another width of the screen.
    OtherWidth { path: String, width: u32 },
}

/// Work that is not needed any more.
#[verifier::ext_equal]
pub enum StaleView {
    Others { path: PathKey },
    Document { path: PathKey },
    OtherWidth { path: PathKey, width: u32 },
}

impl View for Stale {
    type V = StaleView;

    open spec fn view(&self) -> StaleView {
        match self {
            Stale::Others { path } => StaleView::Others { path: path_key(path@) },
            Stale::Document { path } => StaleView::Document { path: path_key(path@) },
            Stale::OtherWidth { path, width } => StaleView::OtherWidth {
                path: path_key(path@),
                width: *width,
            },
        }
    }
}

/// Whether work on a page is not needed any more.
pub open spec fn is_stale(which: StaleView, e: (PathKey, PageId)) -> bool {
    match which {
        StaleView::Others { path } => e.0 != path,
        StaleView::Document { path } => e.0 == path,
        StaleView::OtherWidth { path, width } => e.0 == path && e.1.width != width,
    }
}

fn stale(which: &Stale, path: &str, id: PageId) -> (r: bool)
    ensures
        r == is_stale(which@, (path_key(path@), id)),
{
    match which {
        Stale::Others { path: kept } => !same_path(path, kept.as_str()),
        Stale::Document { path: gone } => same_path(path, gone.as_str()),
        Stale::OtherWidth { path: own, width } => same_path(path, own.as_str()) && id.width
            != *width,
    }
}

/// The page that a job is about.
pub open spec fn job_page(e: (PathKey, Job)) -> (PathKey, PageId) {
    (e.0, e.1.id)
}

/// The jobs that are still needed.
pub open spec fn needed_jobs(queue: Seq<(PathKey, Job)>, which: StaleView) -> Seq<(PathKey, Job)>
    decreases queue.len(),
{
    if queue.len() == 0 {
        Seq::empty()
    } else if is_stale(which, job_page(queue.last())) {
        needed_jobs(queue.drop_last(), which)
    } else {
        needed_jobs(queue.drop_last(), which).push(queue.last())
    }
}

/// Pages without those of the jobs that are not needed any more.
pub open spec fn without_stale_jobs(
    v: Seq<(PathKey, PageId)>,
    queue: Seq<(PathKey, Job)>,
    which: StaleView,
) -> Seq<(PathKey, PageId)>
    decreases queue.len(),
{
    if queue.len() == 0 {
        v
    } else {
        let rest = without_stale_jobs(v, queue.drop_last(), which);
        if is_stale(which, job_page(queue.last())) {
            without_page(rest, queue.last().0, queue.last().1.id)
        } else {
            rest
        }
    }
}

/// The pages on which work has to stop.
pub open spec fn stopped(v: Seq<(PathKey, PageId)>, which: StaleView) -> Seq<(PathKey, PageId)>
    decreases v.len(),
{
    if v.len() == 0 {
        Seq::empty()
    } else if is_stale(which, v.last()) {
        stopped(v.drop_last(), which).push(v.last())
    } else {
        stopped(v.drop_last(), which)
    }
}

/// The state once work that is not needed any more has been given up.
pub open spec fn cancelled(c: CacheModel, which: StaleView) -> CacheModel {
    CacheModel {
        queue: needed_jobs(c.queue, which),
        in_flight: without_stale_jobs(c.in_flight, c.queue, which),
        cancellations: without_stale_jobs(c.cancellations, c.queue, which),
        ..c
    }
}

/// Gives up work that is not needed any more: jobs that wait are dropped. Returns
/// the pages whose drawing has to stop.
pub fn cancel_render_jobs(g: &mut PageCache, which: &Stale) -> (r: Vec<Owned<PageId>>)
    ensures
        final(g)@ == cancelled(old(g)@, which@),
        items(r@) == stopped(old(g)@.cancellations, which@),
{
    let ghost c = g@;
    let mut stop: Vec<Owned<PageId>> = Vec::new();
    let mut k: usize = 0;
    assert(c.cancellations.take(0) =~= Seq::empty());
    assert(items(stop@) =~= Seq::empty());
    while k < g.render_cancellations.len()
        invariant
            k <= g.render_cancellations@.len(),
            g@ == c,
            items(stop@) == stopped(c.cancellations.take(k as int), which@),
        decreases g.render_cancellations@.len() - k,
    {
        let ghost t = c.cancellations.take(k + 1);
        assert(t.drop_last() =~= c.cancellations.take(k as int));
        let ghost before = items(stop@);
        let id = g.render_cancellations[k].item;
        assert(t.last() == (path_key(g.render_cancellations@[k as int].path@), id));
        if stale(which, g.render_cancellations[k].path.as_str(), id) {
            let path = g.render_cancellations[k].path.clone();
            stop.push(Owned { path, item: id });
            assert(items(stop@) =~= before.push(t.last()));
        }
        k = k + 1;
    }
    assert(c.cancellations.take(k as int) =~= c.cancellations);
    let n: usize = g.render_queue.len();
    let mut jobs: Vec<Owned<Job>> = Vec::new();
    let mut i: usize = 0;
    assert(c.queue.take(0) =~= Seq::empty());
    assert(c.queue.skip(0) =~= c.queue);
    assert(items(jobs@) =~= Seq::empty());
    while i < n
        invariant
            i <= n == c.queue.len(),
            items(g.render_queue@) == c.queue.skip(i as int),
            items(jobs@) == needed_jobs(c.queue.take(i as int), which@),
            g@ == (CacheModel {
                queue: c.queue.skip(i as int),
                in_flight: without_stale_jobs(c.in_flight, c.queue.take(i as int), which@),
                cancellations: without_stale_jobs(
                    c.cancellations,
                    c.queue.take(i as int),
                    which@,
                ),
                ..c
            }),
        decreases n - i,
    {
        let ghost t = c.queue.take(i + 1);
        let ghost left = items(g.render_queue@);
        let ghost before = items(jobs@);
        proof {
            assert(t.drop_last() =~= c.queue.take(i as int));
            assert(t.last() == c.queue[i as int]);
            assert(left[0] == c.queue[i as int]);
            assert(left.len() == g.render_queue@.len());
        }
        let entry = g.render_queue.remove(0);
        assert(items(g.render_queue@) =~= left.skip(1));
        assert(left.skip(1) =~= c.queue.skip(i + 1));
        assert((path_key(entry.path@), entry.item) == left[0]);
        if stale(which, entry.path.as_str(), entry.item.id) {
            drop_page(&mut g.in_flight, entry.path.as_str(), entry.item.id);
            drop_page(&mut g.render_cancellations, entry.path.as_str(), entry.item.id);
        } else {
            let ghost e = (path_key(entry.path@), entry.item);
            jobs.push(entry);
            assert(items(jobs@) =~= before.push(e));
        }
        i = i + 1;
    }
    assert(c.queue.take(i as int) =~= c.queue);
    g.render_queue = jobs;
    stop
}

// ---------------------------------------------------------------------------
// Documents
// ---------------------------------------------------------------------------

/// Tells the documents that are kept when another one is opened: that one, and
/// those that are still worked on.
pub open spec fn still_known(path: PathKey, busy: Seq<(PathKey, PageId)>) -> spec_fn(
    (PathKey, u64),
) -> bool {
    |e: (PathKey, u64)| e.0 == path || has_document(busy, e.0)
}

/// The generation of a document is noted, the first where none was.
pub open spec fn with_generation(v: Seq<(PathKey, u64)>, path: PathKey) -> Seq<(PathKey, u64)> {
    if value_of(v, path) is Some {
        v
    } else {
        v.push((path, 0))
    }
}

fn ensure_generation(v: &mut Vec<Owned<u64>>, path: &str) -> (r: u64)
    ensures
        items(final(v)@) == with_generation(items(old(v)@), path_key(path@)),
        r == value_of(items(old(v)@), path_key(path@)).unwrap_or(0),
{
    match lookup(v, path) {
        Some(generation) => generation,
        None => {
            add_item(v, path, 0);
            0
        },
    }
}

/// Only a document is left of what is kept, and it is shown from its start.
pub open spec fn document_opened(c: CacheModel, path: PathKey) -> CacheModel {
    let d = cancelled(c, StaleView::Others { path });
    let gone = c.resident matches Some(r) && r.0 != path;
    CacheModel {
        pages: kept(d.pages, path, true),
        in_flight: kept(d.in_flight, path, true),
        queue: kept(d.queue, path, true),
        widths: kept(d.widths, path, true),
        generations: with_generation(
            d.generations.filter(still_known(path, d.cancellations)),
            path,
        ),
        counts: kept(d.counts, path, true),
        counting: kept(d.counting, path, true),
        deletes: if gone {
            d.deletes.push(d.resident.unwrap().1)
        } else {
            d.deletes
        },
        resident: if gone {
            None
        } else {
            d.resident
        },
        crop: None,
        encoded: None,
        target: start(),
        current: start(),
        timed: false,
        ..d
    }
}

fn keep_known(v: &mut Vec<Owned<u64>>, path: &str, busy: &Vec<Owned<PageId>>)
    ensures
        items(final(v)@) == items(old(v)@).filter(still_known(path_key(path@), items(busy@))),
{
    let ghost all = items(v@);
    let ghost p = still_known(path_key(path@), items(busy@));
    let n: usize = v.len();
    let mut rest: Vec<Owned<u64>> = Vec::new();
    let mut i: usize = 0;
    assert(all.take(0) =~= Seq::empty());
    assert(all.skip(0) =~= all);
    reveal(Seq::filter);
    while i < n
        invariant
            i <= n == all.len(),
            p == still_known(path_key(path@), items(busy@)),
            items(v@) == all.skip(i as int),
            items(rest@) == all.take(i as int).filter(p),
        decreases n - i,
    {
        proof {
            reveal(Seq::filter);
            assert(all.take(i + 1).drop_last() =~= all.take(i as int));
            assert(all.take(i + 1).last() == all[i as int]);
            assert(items(v@).len() == v@.len());
        }
        let ghost before = items(rest@);
        let ghost left = items(v@);
        let entry = v.remove(0);
        assert(items(v@) =~= left.skip(1));
        assert(left.skip(1) =~= all.skip(i + 1));
        assert((path_key(entry.path@), entry.item) == left[0]);
        let ghost e = (path_key(entry.path@), entry.item);
        if same_path(entry.path.as_str(), path) || holds_document(busy, entry.path.as_str()) {
            rest.push(entry);
            assert(items(rest@) =~= before.push(e));
        }
        i = i + 1;
    }
    assert(all.take(i as int) =~= all);
    *v = rest;
}

/// Drops all that belongs to other documents, before a document is shown. Returns
/// the pages whose drawing has to stop.
pub fn reset_for_new_document(g: &mut PageCache, new_path: &str) -> (r: Vec<Owned<PageId>>)
    ensures
        final(g)@ == document_opened(old(g)@, path_key(new_path@)),
        items(r@) == stopped(old(g)@.cancellations, StaleView::Others { path: path_key(new_path@) }),
{
    let which = Stale::Others { path: new_path.to_owned() };
    let ghost c = g@;
    let r = cancel_render_jobs(g, &which);
    keep_document(&mut g.pages, new_path, true);
    keep_document(&mut g.in_flight, new_path, true);
    keep_document(&mut g.render_queue, new_path, true);
    keep_document(&mut g.document_widths, new_path, true);
    keep_known(&mut g.document_generations, new_path, &g.render_cancellations);
    let _ = ensure_generation(&mut g.document_generations, new_path);
    keep_document(&mut g.page_counts, new_path, true);
    keep_document(&mut g.page_count_in_flight, new_path, true);
    let mut gone: Option<u32> = None;
    match &g.resident_kitty_image {
        Some(resident) => {
            if !same_path(resident.path.as_str(), new_path) {
                gone = Some(resident.item);
            }
        },
        None => {},
    }
    match gone {
        Some(id) => {
            g.pending_kitty_deletes.push(id);
            g.resident_kitty_image = None;
        },
        None => {},
    }
    g.last_crop_key = None;
    g.last_encoded = None;
    g.target = Position { page: 1, scroll: 0 };
    g.current = Position { page: 1, scroll: 0 };
    g.timed = false;
    assert(g@ =~= document_opened(c, path_key(new_path@)));
    r
}

/// The generation behind another.
pub open spec fn next_generation(generation: u64) -> u64 {
    if generation == u64::MAX {
        0
    } else {
        (generation + 1) as u64
    }
}

/// What was drawn of a document is dropped, and what is still being drawn of it will
/// not be taken.
pub open spec fn pages_dropped(c: CacheModel, path: PathKey) -> CacheModel {
    let n = next_generation(value_of(c.generations, path).unwrap_or(0));
    let d = cancelled(
        CacheModel { generations: with_value(c.generations, path, n), ..c },
        StaleView::Document { path },
    );
    CacheModel {
        pages: kept(d.pages, path, false),
        in_flight: kept(d.in_flight, path, false),
        queue: kept(d.queue, path, false),
        widths: kept(d.widths, path, false),
        counts: kept(d.counts, path, false),
        counting: kept(d.counting, path, false),
        ..d
    }
}

fn drop_pages(g: &mut PageCache, path: &str) -> (r: Vec<Owned<PageId>>)
    ensures
        final(g)@ == pages_dropped(old(g)@, path_key(path@)),
        items(r@) == stopped(old(g)@.cancellations, StaleView::Document { path: path_key(path@) }),
{
    let ghost c = g@;
    let which = Stale::Document { path: path.to_owned() };
    let generation: u64 = match lookup(&g.document_generations, path) {
        Some(generation) => generation,
        None => 0,
    };
    let next: u64 = if generation == u64::MAX {
        0
    } else {
        generation + 1
    };
    note(&mut g.document_generations, path, next);
    let r = cancel_render_jobs(g, &which);
    keep_document(&mut g.pages, path, false);
    keep_document(&mut g.in_flight, path, false);
    keep_document(&mut g.render_queue, path, false);
    keep_document(&mut g.document_widths, path, false);
    keep_document(&mut g.page_counts, path, false);
    keep_document(&mut g.page_count_in_flight, path, false);
    assert(g@ =~= pages_dropped(c, path_key(path@)));
    r
}

/// Drops what was drawn of a document that has been written anew. The position in
/// it stays, and the image that the terminal holds stays until there is another.
/// Returns the pages whose drawing has to stop.
pub fn invalidate_document(g: &mut PageCache, path: &str) -> (r: Vec<Owned<PageId>>)
    ensures
        final(g)@ == (CacheModel {
            crop: None,
            encoded: None,
            ..pages_dropped(old(g)@, path_key(path@))
        }),
        items(r@) == stopped(old(g)@.cancellations, StaleView::Document { path: path_key(path@) }),
{
    let r = drop_pages(g, path);
    g.last_crop_key = None;
    g.last_encoded = None;
    r
}

/// All that belongs to a document is gone.
pub open spec fn document_released(c: CacheModel, path: PathKey) -> CacheModel {
    let d = pages_dropped(c, path);
    let held = c.resident matches Some(r) && r.0 == path;
    let shown = c.crop matches Some(k) && k.path == path;
    CacheModel {
        temp_files: kept(d.temp_files, path, false),
        deletes: if held {
            d.deletes.push(d.resident.unwrap().1)
        } else {
            d.deletes
        },
        resident: if held {
            None
        } else {
            d.resident
        },
        crop: if shown {
            None
        } else {
            d.crop
        },
        encoded: if shown {
            None
        } else {
            d.encoded
        },
        generations: if has_document(d.cancellations, path) {
            d.generations
        } else {
            kept(d.generations, path, false)
        },
        ..d
    }
}

/// Drops all that belongs to a document that is closed. Returns the pages whose
/// drawing has to stop, and the files that have to be deleted.
pub fn release_document(g: &mut PageCache, path: &str) -> (r: (Vec<Owned<PageId>>, Vec<Owned<String>>))
    ensures
        final(g)@ == document_released(old(g)@, path_key(path@)),
        items(r.0@) == stopped(old(g)@.cancellations, StaleView::Document { path: path_key(path@) }),
        items(r.1@) == kept(old(g)@.temp_files, path_key(path@), true),
{
    let ghost c = g@;
    let stop = drop_pages(g, path);
    let mut files: Vec<Owned<String>> = copy_files(&g.temp_files);
    keep_document(&mut files, path, true);
    keep_document(&mut g.temp_files, path, false);
    let mut gone: Option<u32> = None;
    match &g.resident_kitty_image {
        Some(resident) => {
            if same_path(resident.path.as_str(), path) {
                gone = Some(resident.item);
            }
        },
        None => {},
    }
    match gone {
        Some(id) => {
            g.pending_kitty_deletes.push(id);
            g.resident_kitty_image = None;
        },
        None => {},
    }
    let shown: bool = match &g.last_crop_key {
        Some(key) => same_path(key.path.as_str(), path),
        None => false,
    };
    if shown {
        g.last_crop_key = None;
        g.last_encoded = None;
    }
    if !holds_document(&g.render_cancellations, path) {
        keep_document(&mut g.document_generations, path, false);
    }
    assert(g@ =~= document_released(c, path_key(path@)));
    (stop, files)
}

fn copy_files(v: &Vec<Owned<String>>) -> (r: Vec<Owned<String>>)
    ensures
        items(r@) == items(v@),
{
    let mut r: Vec<Owned<String>> = Vec::new();
    let mut i: usize = 0;
    while i < v.len()
        invariant
            i <= v@.len(),
            r@.len() == i,
            forall|j: int|
                0 <= j < i ==> (#[trigger] r@[j]).path == v@[j].path && r@[j].item == v@[j].item,
        decreases v@.len() - i,
    {
        r.push(Owned { path: v[i].path.clone(), item: v[i].item.clone() });
        i = i + 1;
    }
    assert(items(r@) =~= items(v@));
    r
}

/// A document that has been closed or written anew is not in what is kept of drawn
/// pages, and others are there as before.
pub proof fn lemma_dropped(c: CacheModel, path: PathKey, other: PathKey)
    requires
        other != path,
    ensures
        ({
            let d = pages_dropped(c, path);
            &&& !has_document(d.pages, path)
            &&& !has_document(d.in_flight, path)
            &&& !has_document(d.queue, path)
            &&& !has_document(d.counts, path)
            &&& has_document(c.pages, other) ==> has_document(d.pages, other)
            &&& value_of(d.generations, path) == Some(
                next_generation(value_of(c.generations, path).unwrap_or(0)),
            )
        }),
{
    let d = pages_dropped(c, path);
    let which = StaleView::Document { path };
    lemma_kept(c.pages, path, false);
    lemma_kept(cancelled(c, which).in_flight, path, false);
    lemma_kept(cancelled(c, which).queue, path, false);
    lemma_kept(c.counts, path, false);
    lemma_with_value(
        c.generations,
        path,
        next_generation(value_of(c.generations, path).unwrap_or(0)),
    );
    if has_document(c.pages, other) {
        let i = choose|i: int| 0 <= i < c.pages.len() && (#[trigger] c.pages[i]).0 == other;
        assert(kept(c.pages, path, false).contains(c.pages[i]));
        let j = choose|j: int|
            0 <= j < kept(c.pages, path, false).len() && kept(c.pages, path, false)[j]
                == c.pages[i];
        assert(d.pages[j].0 == other);
    }
}

// ---------------------------------------------------------------------------
// Numbers of pages
// ---------------------------------------------------------------------------

/// What is known of the number of pages of a document.
#[derive(Clone, Copy, Debug, PartialEq, Eq, Structural)]
pub enum CountStep {
    Known(usize),
    /// It is being found out.
    Wait,
    /// It has to be found out; [`page_counted`].
    Query { generation: u64 },
}

/// Number of pages of a document as it was at some time, from position `k` on.
pub open spec fn count_from(
    v: Seq<(PathKey, PageCount)>,
    path: PathKey,
    generation: u64,
    k: int,
) -> Option<usize>
    decreases v.len() - k,
{
    if k < 0 || k >= v.len() {
        None
    } else if v[k].0 == path && v[k].1.generation == generation {
        Some(v[k].1.count)
    } else {
        count_from(v, path, generation, k + 1)
    }
}

/// What is known of the number of pages of a document.
pub open spec fn count_step(c: CacheModel, path: PathKey) -> CountStep {
    let generation = value_of(c.generations, path).unwrap_or(0);
    match count_from(c.counts, path, generation, 0) {
        Some(count) => CountStep::Known(count),
        None => if c.counting.contains((path, generation)) {
            CountStep::Wait
        } else {
            CountStep::Query { generation }
        },
    }
}

/// The state once the number of pages has been asked for.
pub open spec fn count_asked(c: CacheModel, path: PathKey) -> CacheModel {
    CacheModel {
        generations: with_generation(c.generations, path),
        counting: match count_step(c, path) {
            CountStep::Query { generation } => c.counting.push((path, generation)),
            _ => c.counting,
        },
        ..c
    }
}

/// Tells the number of pages of a document, or that it has to be found out.
pub fn page_count(g: &mut PageCache, path: &str) -> (r: CountStep)
    ensures
        r == count_step(old(g)@, path_key(path@)),
        final(g)@ == count_asked(old(g)@, path_key(path@)),
{
    let ghost c = g@;
    let generation: u64 = ensure_generation(&mut g.document_generations, path);
    let mut i: usize = 0;
    while i < g.page_counts.len()
        invariant
            i <= g.page_counts@.len(),
            g@ == (CacheModel { generations: with_generation(c.generations, path_key(path@)), ..c }),
            c == old(g)@,
            generation == value_of(c.generations, path_key(path@)).unwrap_or(0),
            count_from(c.counts, path_key(path@), generation, 0) == count_from(
                c.counts,
                path_key(path@),
                generation,
                i as int,
            ),
        decreases g.page_counts@.len() - i,
    {
        assert(c.counts[i as int] == (path_key(g.page_counts@[i as int].path@), g.page_counts@[i as int].item));
        if same_path(g.page_counts[i].path.as_str(), path) && g.page_counts[i].item.generation
            == generation {
            assert(g@ =~= count_asked(c, path_key(path@)));
            return CountStep::Known(g.page_counts[i].item.count);
        }
        i = i + 1;
    }
    let mut j: usize = 0;
    while j < g.page_count_in_flight.len()
        invariant
            j <= g.page_count_in_flight@.len(),
            g@ == (CacheModel { generations: with_generation(c.generations, path_key(path@)), ..c }),
            c == old(g)@,
            generation == value_of(c.generations, path_key(path@)).unwrap_or(0),
            count_from(c.counts, path_key(path@), generation, 0) is None,
            forall|k: int| 0 <= k < j ==> #[trigger] c.counting[k] != (path_key(path@), generation),
        decreases g.page_count_in_flight@.len() - j,
    {
        assert(c.counting[j as int] == (
            path_key(g.page_count_in_flight@[j as int].path@),
            g.page_count_in_flight@[j as int].item,
        ));
        if same_path(g.page_count_in_flight[j].path.as_str(), path) && g.page_count_in_flight[j].item
            == generation {
            assert(c.counting.contains((path_key(path@), generation)));
            assert(g@ =~= count_asked(c, path_key(path@)));
            return CountStep::Wait;
        }
        j = j + 1;
    }
    assert(!c.counting.contains((path_key(path@), generation)));
    add_item(&mut g.page_count_in_flight, path, generation);
    assert(g@ =~= count_asked(c, path_key(path@)));
    CountStep::Query { generation }
}

/// Tells the other questions for numbers of pages.
pub open spec fn other_question(path: PathKey, generation: u64) -> spec_fn((PathKey, u64)) -> bool {
    |e: (PathKey, u64)| e != (path, generation)
}

/// Tells the numbers of pages of other documents, or of other times.
pub open spec fn other_count(path: PathKey, generation: u64) -> spec_fn((PathKey, PageCount)) -> bool {
    |e: (PathKey, PageCount)| !(e.0 == path && e.1.generation == generation)
}

/// The state once the number of pages has been found out. It is only taken where
/// the document is still the same.
pub open spec fn count_noted(c: CacheModel, path: PathKey, generation: u64, count: usize) -> CacheModel {
    CacheModel {
        counting: c.counting.filter(other_question(path, generation)),
        counts: if value_of(c.generations, path) == Some(generation) {
            c.counts.filter(other_count(path, generation)).push(
                (
                    path,
                    PageCount {
                        generation,
                        count: if count == 0 {
                            1
                        } else {
                            count
                        },
                    },
                ),
            )
        } else {
            c.counts
        },
        ..c
    }
}

fn drop_question(v: &mut Vec<Owned<u64>>, path: &str, generation: u64)
    ensures
        items(final(v)@) == items(old(v)@).filter(other_question(path_key(path@), generation)),
{
    let ghost all = items(v@);
    let ghost p = other_question(path_key(path@), generation);
    let n: usize = v.len();
    let mut rest: Vec<Owned<u64>> = Vec::new();
    let mut i: usize = 0;
    assert(all.take(0) =~= Seq::empty());
    assert(all.skip(0) =~= all);
    reveal(Seq::filter);
    while i < n
        invariant
            i <= n == all.len(),
            p == other_question(path_key(path@), generation),
            items(v@) == all.skip(i as int),
            items(rest@) == all.take(i as int).filter(p),
        decreases n - i,
    {
        proof {
            reveal(Seq::filter);
            assert(all.take(i + 1).drop_last() =~= all.take(i as int));
            assert(all.take(i + 1).last() == all[i as int]);
            assert(items(v@).len() == v@.len());
        }
        let ghost before = items(rest@);
        let ghost left = items(v@);
        let entry = v.remove(0);
        assert(items(v@) =~= left.skip(1));
        assert(left.skip(1) =~= all.skip(i + 1));
        assert((path_key(entry.path@), entry.item) == left[0]);
        let ghost e = (path_key(entry.path@), entry.item);
        if !(same_path(entry.path.as_str(), path) && entry.item == generation) {
            rest.push(entry);
            assert(items(rest@) =~= before.push(e));
        }
        i = i + 1;
    }
    assert(all.take(i as int) =~= all);
    *v = rest;
}

fn drop_count(v: &mut Vec<Owned<PageCount>>, path: &str, generation: u64)
    ensures
        items(final(v)@) == items(old(v)@).filter(other_count(path_key(path@), generation)),
{
    let ghost all = items(v@);
    let ghost p = other_count(path_key(path@), generation);
    let n: usize = v.len();
    let mut rest: Vec<Owned<PageCount>> = Vec::new();
    let mut i: usize = 0;
    assert(all.take(0) =~= Seq::empty());
    assert(all.skip(0) =~= all);
    reveal(Seq::filter);
    while i < n
        invariant
            i <= n == all.len(),
            p == other_count(path_key(path@), generation),
            items(v@) == all.skip(i as int),
            items(rest@) == all.take(i as int).filter(p),
        decreases n - i,
    {
        proof {
            reveal(Seq::filter);
            assert(all.take(i + 1).drop_last() =~= all.take(i as int));
            assert(all.take(i + 1).last() == all[i as int]);
            assert(items(v@).len() == v@.len());
        }
        let ghost before = items(rest@);
        let ghost left = items(v@);
        let entry = v.remove(0);
        assert(items(v@) =~= left.skip(1));
        assert(left.skip(1) =~= all.skip(i + 1));
        assert((path_key(entry.path@), entry.item) == left[0]);
        let ghost e = (path_key(entry.path@), entry.item);
        if !(same_path(entry.path.as_str(), path) && entry.item.generation == generation) {
            rest.push(entry);
            assert(items(rest@) =~= before.push(e));
        }
        i = i + 1;
    }
    assert(all.take(i as int) =~= all);
    *v = rest;
}

/// Takes the number of pages of a document in.
pub fn page_counted(g: &mut PageCache, path: &str, generation: u64, count: usize)
    ensures
        final(g)@ == count_noted(old(g)@, path_key(path@), generation, count),
{
    let ghost c = g@;
    drop_question(&mut g.page_count_in_flight, path, generation);
    let current: bool = match lookup(&g.document_generations, path) {
        Some(now) => now == generation,
        None => false,
    };
    if current {
        drop_count(&mut g.page_counts, path, generation);
        let count: usize = if count == 0 {
            1
        } else {
            count
        };
        add_item(&mut g.page_counts, path, PageCount { generation, count });
    }
    assert(g@ =~= count_noted(c, path_key(path@), generation, count));
}

// ---------------------------------------------------------------------------
// Drawing pages
// ---------------------------------------------------------------------------

/// Whether a page has been drawn.
pub open spec fn has_page(v: Seq<(PathKey, RenderedPage)>, path: PathKey, id: PageId) -> bool {
    exists|i: int| 0 <= i < v.len() && (#[trigger] v[i]).0 == path && v[i].1.id == id
}

/// The first drawing of a page, from position `k` on.
pub open spec fn page_from(v: Seq<(PathKey, RenderedPage)>, path: PathKey, id: PageId, k: int) -> Option<
    RenderedPage,
>
    decreases v.len() - k,
{
    if k < 0 || k >= v.len() {
        None
    } else if v[k].0 == path && v[k].1.id == id {
        Some(v[k].1)
    } else {
        page_from(v, path, id, k + 1)
    }
}

/// A page that has been drawn is found, and no other.
pub proof fn lemma_page_from(v: Seq<(PathKey, RenderedPage)>, path: PathKey, id: PageId)
    ensures
        page_from(v, path, id, 0) is Some <==> has_page(v, path, id),
{
    lemma_page_from_on(v, path, id, 0);
}

proof fn lemma_page_from_on(v: Seq<(PathKey, RenderedPage)>, path: PathKey, id: PageId, k: int)
    requires
        0 <= k,
    ensures
        page_from(v, path, id, k) is Some <==> exists|i: int|
            k <= i < v.len() && (#[trigger] v[i]).0 == path && v[i].1.id == id,
    decreases v.len() - k,
{
    if k < v.len() && !(v[k].0 == path && v[k].1.id == id) {
        lemma_page_from_on(v, path, id, k + 1);
        if page_from(v, path, id, k) is None {
            assert forall|i: int| k <= i < v.len() implies !((#[trigger] v[i]).0 == path
                && v[i].1.id == id) by {
                if i > k {
                }
            }
        }
    }
}

/// Position of a page that has been drawn.
pub fn find_page(v: &Vec<Owned<RenderedPage>>, path: &str, id: PageId) -> (r: Option<usize>)
    ensures
        match r {
            Some(i) => i < v@.len() && has_page(items(v@), path_key(path@), id) && page_from(
                items(v@),
                path_key(path@),
                id,
                0,
            ) == Some(v@[i as int].item),
            None => !has_page(items(v@), path_key(path@), id) && page_from(items(v@), path_key(path@), id, 0) is None,
        },
{
    let mut i: usize = 0;
    while i < v.len()
        invariant
            i <= v@.len(),
            page_from(items(v@), path_key(path@), id, 0) == page_from(items(v@), path_key(path@), id, i as int),
            forall|j: int|
                0 <= j < i ==> !((#[trigger] items(v@)[j]).0 == path_key(path@) && items(v@)[j].1.id == id),
        decreases v@.len() - i,
    {
        if same_path(v[i].path.as_str(), path) && v[i].item.id == id {
            assert(items(v@)[i as int].0 == path_key(path@));
            return Some(i);
        }
        i = i + 1;
    }
    None
}

/// Position of the first job for a page, from `k` on.
pub open spec fn job_from(v: Seq<(PathKey, Job)>, path: PathKey, id: PageId, k: int) -> Option<int>
    decreases v.len() - k,
{
    if k < 0 || k >= v.len() {
        None
    } else if v[k].0 == path && v[k].1.id == id {
        Some(k)
    } else {
        job_from(v, path, id, k + 1)
    }
}

fn find_job(v: &Vec<Owned<Job>>, path: &str, id: PageId) -> (r: Option<usize>)
    ensures
        match r {
            Some(i) => i < v@.len() && job_from(items(v@), path_key(path@), id, 0) == Some(i as int),
            None => job_from(items(v@), path_key(path@), id, 0) is None,
        },
{
    let mut i: usize = 0;
    while i < v.len()
        invariant
            i <= v@.len(),
            job_from(items(v@), path_key(path@), id, 0) == job_from(items(v@), path_key(path@), id, i as int),
        decreases v@.len() - i,
    {
        if same_path(v[i].path.as_str(), path) && v[i].item.id == id {
            return Some(i);
        }
        i = i + 1;
    }
    None
}

/// A page of a document as it is now.
pub open spec fn current_page_id(c: CacheModel, path: PathKey, page: usize, dpi: u32, width: u32) -> PageId {
    PageId { generation: value_of(c.generations, path).unwrap_or(0), page, dpi, width }
}

/// The state once a page has been asked for: a page that is neither there nor under
/// way is put in line, and one that is urgent goes to the front.
pub open spec fn page_requested(c: CacheModel, path: PathKey, id: PageId, priority: bool) -> CacheModel {
    if has_page(c.pages, path, id) {
        c
    } else if c.in_flight.contains((path, id)) {
        match job_from(c.queue, path, id, 0) {
            Some(i) => if priority {
                CacheModel {
                    queue: c.queue.remove(i).insert(0, (path, Job { id, priority: true })),
                    ..c
                }
            } else {
                c
            },
            None => c,
        }
    } else {
        CacheModel {
            in_flight: c.in_flight.push((path, id)),
            cancellations: without_page(c.cancellations, path, id).push((path, id)),
            queue: if priority {
                c.queue.insert(0, (path, Job { id, priority }))
            } else {
                c.queue.push((path, Job { id, priority }))
            },
            ..c
        }
    }
}

/// Asks for a page.
pub fn request_page(g: &mut PageCache, path: &str, page: usize, dpi: u32, pixel_w: u32, priority: bool)
    ensures
        final(g)@ == page_requested(
            old(g)@,
            path_key(path@),
            current_page_id(old(g)@, path_key(path@), page, dpi, pixel_w),
            priority,
        ),
{
    let ghost c = g@;
    let generation: u64 = match lookup(&g.document_generations, path) {
        Some(generation) => generation,
        None => 0,
    };
    let id = PageId { generation, page, dpi, width: pixel_w };
    match find_page(&g.pages, path, id) {
        Some(_) => {
            return ;
        },
        None => {},
    }
    if holds_page(&g.in_flight, path, id) {
        if priority {
            match find_job(&g.render_queue, path, id) {
                Some(i) => {
                    let ghost queue = items(g.render_queue@);
                    let _ = g.render_queue.remove(i);
                    assert(items(g.render_queue@) =~= queue.remove(i as int));
                    g.render_queue.insert(
                        0,
                        Owned { path: path.to_owned(), item: Job { id, priority: true } },
                    );
                    assert(items(g.render_queue@) =~= queue.remove(i as int).insert(
                        0,
                        (path_key(path@), Job { id, priority: true }),
                    ));
                    assert(g@ =~= page_requested(c, path_key(path@), id, priority));
                },
                None => {},
            }
        }
        return ;
    }
    add_item(&mut g.in_flight, path, id);
    drop_page(&mut g.render_cancellations, path, id);
    add_item(&mut g.render_cancellations, path, id);
    let ghost queue = items(g.render_queue@);
    if priority {
        g.render_queue.insert(0, Owned { path: path.to_owned(), item: Job { id, priority } });
        assert(items(g.render_queue@) =~= queue.insert(0, (path_key(path@), Job { id, priority })));
    } else {
        add_item(&mut g.render_queue, path, Job { id, priority });
    }
    assert(g@ =~= page_requested(c, path_key(path@), id, priority));
}

/// Whether the first job may be started now. While something is being drawn, only
/// an urgent page may join.
pub open spec fn may_start(c: CacheModel) -> bool {
    &&& c.active < MAX_CONCURRENT_RENDERS
    &&& c.queue.len() > 0
    &&& c.active == 0 || c.queue[0].1.priority
}

/// The state once the first job has been started, if it may be.
pub open spec fn started(c: CacheModel) -> CacheModel {
    if may_start(c) {
        CacheModel { active: (c.active + 1) as usize, queue: c.queue.skip(1), ..c }
    } else {
        c
    }
}

/// Takes the job that may be started now out of the line.
pub fn pump_render_queue(g: &mut PageCache) -> (r: Option<Owned<Job>>)
    ensures
        final(g)@ == started(old(g)@),
        match r {
            Some(job) => may_start(old(g)@) && old(g)@.queue[0] == (path_key(job.path@), job.item),
            None => !may_start(old(g)@),
        },
{
    let ghost c = g@;
    assert(c.queue.len() == g.render_queue@.len());
    if g.active_renders >= MAX_CONCURRENT_RENDERS || g.render_queue.len() == 0 {
        return None;
    }
    if g.active_renders > 0 && !g.render_queue[0].item.priority {
        return None;
    }
    let job = g.render_queue.remove(0);
    assert(items(g.render_queue@) =~= c.queue.skip(1));
    g.active_renders = g.active_renders + 1;
    assert(g@ =~= started(c));
    Some(job)
}

/// Never more pages are drawn at the same time than may be.
pub proof fn lemma_renders_bounded(c: CacheModel)
    requires
        c.active <= MAX_CONCURRENT_RENDERS,
    ensures
        started(c).active <= MAX_CONCURRENT_RENDERS,
{
}

/// Whether nothing is left of a document but its generation.
pub open spec fn forgotten(c: CacheModel, path: PathKey) -> bool {
    &&& !has_document(c.widths, path)
    &&& !has_document(c.pages, path)
    &&& !has_document(c.in_flight, path)
    &&& !has_document(c.queue, path)
    &&& !has_document(c.cancellations, path)
}

/// Tells the other pages that have been drawn.
pub open spec fn other_drawing(path: PathKey, id: PageId) -> spec_fn((PathKey, RenderedPage)) -> bool {
    |e: (PathKey, RenderedPage)| !(e.0 == path && e.1.id == id)
}

/// Whether a page that has been drawn is still wanted: the document and the width of
/// the screen are the same.
pub open spec fn still_wanted(c: CacheModel, path: PathKey, id: PageId) -> bool {
    &&& value_of(c.generations, path).unwrap_or(0) == id.generation
    &&& value_of(c.widths, path) == Some(id.width)
}

/// The state once a page has been drawn or could not be.
pub open spec fn drawn(
    c: CacheModel,
    path: PathKey,
    id: PageId,
    image: Option<Raster>,
    file: Option<String>,
) -> CacheModel {
    let d = CacheModel {
        active: if c.active > 0 {
            (c.active - 1) as usize
        } else {
            0
        },
        in_flight: without_page(c.in_flight, path, id),
        cancellations: without_page(c.cancellations, path, id),
        ..c
    };
    let e = if still_wanted(c, path, id) {
        match image {
            Some(image) => CacheModel {
                pages: d.pages.filter(other_drawing(path, id)).push(
                    (path, RenderedPage { id, image }),
                ),
                temp_files: match file {
                    Some(f) => if holds_file(c.temp_files, path_key(f@)) {
                        d.temp_files
                    } else {
                        d.temp_files.push((path, f))
                    },
                    None => d.temp_files,
                },
                ..d
            },
            None => d,
        }
    } else {
        d
    };
    CacheModel {
        generations: if forgotten(e, path) {
            kept(e.generations, path, false)
        } else {
            e.generations
        },
        ..e
    }
}

/// Whether a file is noted.
pub open spec fn holds_file(v: Seq<(PathKey, String)>, file: PathKey) -> bool {
    exists|i: int| 0 <= i < v.len() && path_key((#[trigger] v[i]).1@) == file
}

fn note_file(v: &mut Vec<Owned<String>>, path: &str, file: String)
    ensures
        items(final(v)@) == if holds_file(items(old(v)@), path_key(file@)) {
            items(old(v)@)
        } else {
            items(old(v)@).push((path_key(path@), file))
        },
{
    let mut i: usize = 0;
    while i < v.len()
        invariant
            i <= v@.len(),
            *v == *old(v),
            forall|j: int| 0 <= j < i ==> path_key((#[trigger] items(v@)[j]).1@) != path_key(file@),
        decreases v@.len() - i,
    {
        if same_path(v[i].item.as_str(), file.as_str()) {
            assert(path_key(items(v@)[i as int].1@) == path_key(file@));
            return ;
        }
        i = i + 1;
    }
    assert(!holds_file(items(v@), path_key(file@)));
    add_item(v, path, file);
}

fn drop_drawing(v: &mut Vec<Owned<RenderedPage>>, path: &str, id: PageId)
    ensures
        items(final(v)@) == items(old(v)@).filter(other_drawing(path_key(path@), id)),
{
    let ghost all = items(v@);
    let ghost p = other_drawing(path_key(path@), id);
    let n: usize = v.len();
    let mut rest: Vec<Owned<RenderedPage>> = Vec::new();
    let mut i: usize = 0;
    assert(all.take(0) =~= Seq::empty());
    assert(all.skip(0) =~= all);
    reveal(Seq::filter);
    while i < n
        invariant
            i <= n == all.len(),
            p == other_drawing(path_key(path@), id),
            items(v@) == all.skip(i as int),
            items(rest@) == all.take(i as int).filter(p),
        decreases n - i,
    {
        proof {
            reveal(Seq::filter);
            assert(all.take(i + 1).drop_last() =~= all.take(i as int));
            assert(all.take(i + 1).last() == all[i as int]);
            assert(items(v@).len() == v@.len());
        }
        let ghost before = items(rest@);
        let ghost left = items(v@);
        let entry = v.remove(0);
        assert(items(v@) =~= left.skip(1));
        assert(left.skip(1) =~= all.skip(i + 1));
        assert((path_key(entry.path@), entry.item) == left[0]);
        let ghost e = (path_key(entry.path@), entry.item);
        if !(same_path(entry.path.as_str(), path) && entry.item.id == id) {
            rest.push(entry);
            assert(items(rest@) =~= before.push(e));
        }
        i = i + 1;
    }
    assert(all.take(i as int) =~= all);
    *v = rest;
}

/// Takes in that a page has been drawn, or could not be. A page that is not wanted
/// any more is not kept. `file` is the file that it was drawn to, where that is
/// still there. Tells whether that file has to be deleted.
pub fn render_finished(
    g: &mut PageCache,
    path: &str,
    id: PageId,
    image: Option<Raster>,
    file: Option<String>,
) -> (delete: bool)
    ensures
        final(g)@ == drawn(old(g)@, path_key(path@), id, image, file),
        delete == (!still_wanted(old(g)@, path_key(path@), id) || image is None),
{
    let ghost c = g@;
    let ghost given = image;
    let ghost left_over = file;
    if g.active_renders > 0 {
        g.active_renders = g.active_renders - 1;
    }
    drop_page(&mut g.in_flight, path, id);
    drop_page(&mut g.render_cancellations, path, id);
    let generation: u64 = match lookup(&g.document_generations, path) {
        Some(generation) => generation,
        None => 0,
    };
    let same_width: bool = match lookup(&g.document_widths, path) {
        Some(width) => width == id.width,
        None => false,
    };
    let wanted: bool = generation == id.generation && same_width;
    let mut delete: bool = true;
    if wanted {
        match image {
            Some(image) => {
                drop_drawing(&mut g.pages, path, id);
                add_item(&mut g.pages, path, RenderedPage { id, image });
                match file {
                    Some(file) => note_file(&mut g.temp_files, path, file),
                    None => {},
                }
                delete = false;
            },
            None => {},
        }
    }
    let ghost e = g@;
    if !holds_document(&g.document_widths, path) && !holds_document(&g.pages, path)
        && !holds_document(&g.in_flight, path) && !holds_document(&g.render_queue, path)
        && !holds_document(&g.render_cancellations, path) {
        keep_document(&mut g.document_generations, path, false);
    }
    assert(g@ =~= drawn(c, path_key(path@), id, given, left_over));
    delete
}

/// A page that was drawn for a document that has since been closed or written anew
/// is not kept.
pub proof fn lemma_late_page_dropped(
    c: CacheModel,
    path: PathKey,
    id: PageId,
    image: Option<Raster>,
    file: Option<String>,
)
    requires
        value_of(c.generations, path) == Some(id.generation),
        id.generation < u64::MAX,
    ensures
        drawn(pages_dropped(c, path), path, id, image, file).pages == pages_dropped(c, path).pages,
{
    let n = next_generation(id.generation);
    lemma_with_value(c.generations, path, n);
}

/// Whether the page that is shown has been drawn, for whatever width.
pub open spec fn page_cached(c: CacheModel, path: Option<PathKey>, page: usize) -> bool {
    match path {
        None => true,
        Some(p) => {
            let generation = value_of(c.generations, p).unwrap_or(0);
            exists|i: int|
                0 <= i < c.pages.len() && (#[trigger] c.pages[i]).0 == p && c.pages[i].1.id.generation
                    == generation && c.pages[i].1.id.page == page && c.pages[i].1.id.dpi == DPI
        },
    }
}

/// Whether the page that is shown has been drawn.
pub fn is_current_page_cached(g: &PageCache, path: &Option<String>, page: usize) -> (r: bool)
    ensures
        r == page_cached(g@, opt_key(*path), page),
{
    match path {
        None => true,
        Some(p) => {
            let generation: u64 = match lookup(&g.document_generations, p.as_str()) {
                Some(generation) => generation,
                None => 0,
            };
            let mut i: usize = 0;
            while i < g.pages.len()
                invariant
                    i <= g.pages@.len(),
                    opt_key(*path) == Some(path_key(p@)),
                    generation == value_of(g@.generations, path_key(p@)).unwrap_or(0),
                    forall|j: int|
                        0 <= j < i ==> !((#[trigger] g@.pages[j]).0 == path_key(p@)
                            && g@.pages[j].1.id.generation == generation && g@.pages[j].1.id.page
                            == page && g@.pages[j].1.id.dpi == DPI),
                decreases g.pages@.len() - i,
            {
                let id = g.pages[i].item.id;
                assert(g@.pages[i as int] == (path_key(g.pages@[i as int].path@), g.pages@[i as int].item));
                if same_path(g.pages[i].path.as_str(), p.as_str()) && id.generation == generation
                    && id.page == page && id.dpi == DPI {
                    return true;
                }
                i = i + 1;
            }
            false
        },
    }
}

/// What takes the images out of the terminal that are not needed any more, if there
/// are any. They are not named again.
pub fn render_pending_kitty_cleanup(g: &mut PageCache) -> (r: Option<String>)
    ensures
        final(g)@ == (CacheModel { deletes: Seq::empty(), ..old(g)@ }),
        match r {
            Some(text) => old(g)@.deletes.len() > 0 && text@ == crate::kitty::deletes_text(
                old(g)@.deletes,
            ),
            None => old(g)@.deletes.len() == 0,
        },
{
    let mut deletes: Vec<u32> = Vec::new();
    std::mem::swap(&mut deletes, &mut g.pending_kitty_deletes);
    assert(g.pending_kitty_deletes@ =~= Seq::empty());
    if deletes.len() == 0 {
        None
    } else {
        Some(crate::kitty::kitty_deletes(&deletes))
    }
}

/// The files that have to be deleted at the end. They are not named again.
pub fn cleanup_temp_files(g: &mut PageCache) -> (r: Vec<Owned<String>>)
    ensures
        final(g)@ == (CacheModel { temp_files: Seq::empty(), ..old(g)@ }),
        items(r@) == old(g)@.temp_files,
{
    let mut files: Vec<Owned<String>> = Vec::new();
    std::mem::swap(&mut files, &mut g.temp_files);
    assert(items(g.temp_files@) =~= Seq::empty());
    files
}

// ---------------------------------------------------------------------------
// Laws
// ---------------------------------------------------------------------------

/// When a document is opened, what was drawn or put in line for it stays, and nothing of
/// any other document does. It is shown from its first page. The image of another
/// document that the terminal holds has to leave it.
pub proof fn lemma_only_the_open_document_stays(c: CacheModel, path: PathKey)
    ensures
        ({
            let d = document_opened(c, path);
            &&& forall|i: int| 0 <= i < d.pages.len() ==> (#[trigger] d.pages[i]).0 == path
            &&& forall|i: int| 0 <= i < d.in_flight.len() ==> (#[trigger] d.in_flight[i]).0 == path
            &&& forall|i: int| 0 <= i < d.queue.len() ==> (#[trigger] d.queue[i]).0 == path
            &&& forall|i: int| 0 <= i < d.counts.len() ==> (#[trigger] d.counts[i]).0 == path
            &&& forall|i: int| 0 <= i < d.widths.len() ==> (#[trigger] d.widths[i]).0 == path
            &&& forall|e: (PathKey, RenderedPage)|
                e.0 == path && c.pages.contains(e) ==> #[trigger] d.pages.contains(e)
            &&& forall|e: (PathKey, PageCount)|
                e.0 == path && c.counts.contains(e) ==> #[trigger] d.counts.contains(e)
            &&& forall|e: (PathKey, Job)|
                e.0 == path && c.queue.contains(e) ==> #[trigger] d.queue.contains(e)
            &&& forall|e: (PathKey, PageId)|
                e.0 == path && c.in_flight.contains(e) ==> #[trigger] d.in_flight.contains(e)
            &&& d.target == (Position { page: 1, scroll: 0 })
            &&& d.current == (Position { page: 1, scroll: 0 })
            &&& d.crop is None
            &&& d.encoded is None
            &&& d.active == c.active
            &&& d.temp_files == c.temp_files
            &&& match c.resident {
                Some(r) => if r.0 == path {
                    d.resident == c.resident && d.deletes == c.deletes
                } else {
                    d.resident is None && d.deletes == c.deletes.push(r.1)
                },
                None => d.resident is None && d.deletes == c.deletes,
            }
        }),
{
    let which = StaleView::Others { path };
    let b = cancelled(c, which);
    let d = document_opened(c, path);
    lemma_kept(b.pages, path, true);
    lemma_kept(b.in_flight, path, true);
    lemma_kept(b.queue, path, true);
    lemma_kept(b.counts, path, true);
    lemma_kept(b.widths, path, true);
    assert forall|e: (PathKey, Job)| e.0 == path && c.queue.contains(e) implies #[trigger] d.queue.contains(e) by {
        lemma_needed_stays(c.queue, which, e);
        let j = choose|j: int| 0 <= j < b.queue.len() && b.queue[j] == e;
        assert(b.queue[j] == e);
    }
    assert forall|e: (PathKey, PageId)| e.0 == path && c.in_flight.contains(e) implies #[trigger] d.in_flight.contains(e) by {
        lemma_pages_under_way_stay(c.in_flight, c.queue, which, e);
        let j = choose|j: int| 0 <= j < b.in_flight.len() && b.in_flight[j] == e;
        assert(b.in_flight[j] == e);
    }
    assert forall|e: (PathKey, RenderedPage)| e.0 == path && c.pages.contains(e) implies #[trigger] d.pages.contains(e) by {
        let j = choose|j: int| 0 <= j < c.pages.len() && c.pages[j] == e;
        assert(b.pages[j] == e);
    }
    assert forall|e: (PathKey, PageCount)| e.0 == path && c.counts.contains(e) implies #[trigger] d.counts.contains(e) by {
        let j = choose|j: int| 0 <= j < c.counts.len() && c.counts[j] == e;
        assert(b.counts[j] == e);
    }
}

/// When a document is closed, nothing is left of it, and what belongs to others stays.
/// Its image has to leave the terminal.
pub proof fn lemma_closed_document_is_gone(c: CacheModel, path: PathKey)
    ensures
        ({
            let d = document_released(c, path);
            &&& forall|i: int| 0 <= i < d.pages.len() ==> (#[trigger] d.pages[i]).0 != path
            &&& forall|i: int| 0 <= i < d.in_flight.len() ==> (#[trigger] d.in_flight[i]).0 != path
            &&& forall|i: int| 0 <= i < d.queue.len() ==> (#[trigger] d.queue[i]).0 != path
            &&& forall|i: int| 0 <= i < d.counts.len() ==> (#[trigger] d.counts[i]).0 != path
            &&& forall|i: int| 0 <= i < d.widths.len() ==> (#[trigger] d.widths[i]).0 != path
            &&& forall|i: int|
                0 <= i < d.temp_files.len() ==> (#[trigger] d.temp_files[i]).0 != path
            &&& forall|e: (PathKey, RenderedPage)|
                e.0 != path && c.pages.contains(e) ==> #[trigger] d.pages.contains(e)
            &&& forall|e: (PathKey, Job)|
                e.0 != path && c.queue.contains(e) ==> #[trigger] d.queue.contains(e)
            &&& forall|e: (PathKey, PageId)|
                e.0 != path && c.in_flight.contains(e) ==> #[trigger] d.in_flight.contains(e)
            &&& forall|e: (PathKey, String)|
                e.0 != path && c.temp_files.contains(e) ==> #[trigger] d.temp_files.contains(e)
            &&& d.target == c.target
            &&& d.current == c.current
            &&& match c.resident {
                Some(r) => if r.0 == path {
                    d.resident is None && d.deletes == c.deletes.push(r.1)
                } else {
                    d.resident == c.resident && d.deletes == c.deletes
                },
                None => d.resident is None && d.deletes == c.deletes,
            }
            &&& match c.crop {
                Some(k) => if k.path == path {
                    d.crop is None && d.encoded is None
                } else {
                    d.crop == c.crop && d.encoded == c.encoded
                },
                None => d.crop is None && d.encoded == c.encoded,
            }
        }),
{
    let which = StaleView::Document { path };
    let b = cancelled(c, which);
    let d = document_released(c, path);
    lemma_kept(b.pages, path, false);
    lemma_kept(b.in_flight, path, false);
    lemma_kept(b.queue, path, false);
    lemma_kept(b.counts, path, false);
    lemma_kept(b.widths, path, false);
    lemma_kept(b.temp_files, path, false);
    assert forall|e: (PathKey, Job)| e.0 != path && c.queue.contains(e) implies #[trigger] d.queue.contains(e) by {
        lemma_needed_stays(c.queue, which, e);
        let j = choose|j: int| 0 <= j < b.queue.len() && b.queue[j] == e;
        assert(b.queue[j] == e);
    }
    assert forall|e: (PathKey, PageId)| e.0 != path && c.in_flight.contains(e) implies #[trigger] d.in_flight.contains(e) by {
        lemma_pages_under_way_stay(c.in_flight, c.queue, which, e);
        let j = choose|j: int| 0 <= j < b.in_flight.len() && b.in_flight[j] == e;
        assert(b.in_flight[j] == e);
    }
    assert forall|e: (PathKey, RenderedPage)| e.0 != path && c.pages.contains(e) implies #[trigger] d.pages.contains(e) by {
        let j = choose|j: int| 0 <= j < c.pages.len() && c.pages[j] == e;
        assert(b.pages[j] == e);
    }
    assert forall|e: (PathKey, String)| e.0 != path && c.temp_files.contains(e) implies #[trigger] d.temp_files.contains(e) by {
        let j = choose|j: int| 0 <= j < c.temp_files.len() && c.temp_files[j] == e;
        assert(b.temp_files[j] == e);
    }
}

proof fn lemma_needed_stays(queue: Seq<(PathKey, Job)>, which: StaleView, e: (PathKey, Job))
    requires
        queue.contains(e),
        !is_stale(which, (e.0, e.1.id)),
    ensures
        needed_jobs(queue, which).contains(e),
    decreases queue.len(),
{
    let rest = needed_jobs(queue.drop_last(), which);
    if queue.last() == e {
        assert(rest.push(e)[rest.len() as int] == e);
    } else {
        let i = choose|i: int| 0 <= i < queue.len() && queue[i] == e;
        assert(queue.drop_last()[i] == e);
        lemma_needed_stays(queue.drop_last(), which, e);
        let j = choose|j: int| 0 <= j < rest.len() && rest[j] == e;
        assert(rest.push(queue.last())[j] == e);
    }
}

proof fn lemma_pages_under_way_stay(
    v: Seq<(PathKey, PageId)>,
    queue: Seq<(PathKey, Job)>,
    which: StaleView,
    e: (PathKey, PageId),
)
    requires
        v.contains(e),
        !is_stale(which, e),
    ensures
        without_stale_jobs(v, queue, which).contains(e),
    decreases queue.len(),
{
    broadcast use vstd::seq_lib::group_filter_ensures;

    if queue.len() > 0 {
        lemma_pages_under_way_stay(v, queue.drop_last(), which, e);
        let last = queue.last();
        assert(other_page(last.0, last.1.id)(e) <==> e != job_page(last));
    }
}

/// A page that is asked for is put in line once: behind the others, or before them where
/// it is urgent. One that has been drawn is not put in line, and one that waits already
/// only goes before the others where it is urgent now.
pub proof fn lemma_page_is_put_in_line(c: CacheModel, path: PathKey, id: PageId, urgent: bool)
    ensures
        ({
            let d = page_requested(c, path, id, urgent);
            let there = exists|i: int|
                0 <= i < c.pages.len() && (#[trigger] c.pages[i]).0 == path && c.pages[i].1.id == id;
            let job = (path, Job { id, priority: urgent });
            &&& there ==> d == c
            &&& !there ==> d.in_flight.contains((path, id))
            &&& !there && !c.in_flight.contains((path, id)) ==> {
                &&& d.in_flight == c.in_flight.push((path, id))
                &&& d.cancellations.contains((path, id))
                &&& d.queue == if urgent {
                    seq![job] + c.queue
                } else {
                    c.queue + seq![job]
                }
            }
            &&& !there && c.in_flight.contains((path, id)) && !urgent ==> d == c
            &&& d.pages == c.pages
            &&& d.active == c.active
        }),
        forall|before: Seq<(PathKey, Job)>, waiting: Job, behind: Seq<(PathKey, Job)>|
            {
                &&& c.queue == #[trigger] (before + seq![(path, waiting)] + behind)
                &&& waiting.id == id
                &&& forall|i: int|
                    0 <= i < before.len() ==> !((#[trigger] before[i]).0 == path && before[i].1.id
                        == id)
                &&& c.in_flight.contains((path, id))
                &&& urgent
                &&& !(exists|i: int|
                    0 <= i < c.pages.len() && (#[trigger] c.pages[i]).0 == path && c.pages[i].1.id
                        == id)
            } ==> page_requested(c, path, id, urgent).queue == seq![
                (path, Job { id, priority: true }),
            ] + before + behind,
{
    let job = (path, Job { id, priority: urgent });
    let d = page_requested(c, path, id, urgent);
    assert(c.queue.insert(0, job) =~= seq![job] + c.queue);
    assert(c.queue.push(job) =~= c.queue + seq![job]);
    let all = c.in_flight.push((path, id));
    assert(all[c.in_flight.len() as int] == (path, id));
    let w = without_page(c.cancellations, path, id);
    assert(w.push((path, id))[w.len() as int] == (path, id));
    assert forall|before: Seq<(PathKey, Job)>, waiting: Job, behind: Seq<(PathKey, Job)>|
        {
            &&& c.queue == #[trigger] (before + seq![(path, waiting)] + behind)
            &&& waiting.id == id
            &&& forall|i: int|
                0 <= i < before.len() ==> !((#[trigger] before[i]).0 == path && before[i].1.id
                    == id)
            &&& c.in_flight.contains((path, id))
            &&& urgent
            &&& !(exists|i: int|
                0 <= i < c.pages.len() && (#[trigger] c.pages[i]).0 == path && c.pages[i].1.id
                    == id)
        } implies d.queue == seq![(path, Job { id, priority: true })] + before + behind by {
        let n = before.len() as int;
        assert(c.queue[n] == (path, waiting));
        assert forall|j: int| 0 <= j < n implies !((#[trigger] c.queue[j]).0 == path
            && c.queue[j].1.id == id) by {
            assert(c.queue[j] == before[j]);
        }
        lemma_job_at(c.queue, path, id, 0, n);
        assert(c.queue.remove(n) =~= before + behind);
        assert(d.queue =~= seq![(path, Job { id, priority: true })] + before + behind);
    }
}

proof fn lemma_job_at(v: Seq<(PathKey, Job)>, path: PathKey, id: PageId, k: int, i: int)
    requires
        0 <= k <= i < v.len(),
        v[i].0 == path && v[i].1.id == id,
        forall|j: int| k <= j < i ==> !((#[trigger] v[j]).0 == path && v[j].1.id == id),
    ensures
        job_from(v, path, id, k) == Some(i),
    decreases i - k,
{
    if k < i {
        assert(!(v[k].0 == path && v[k].1.id == id));
        lemma_job_at(v, path, id, k + 1, i);
    }
}

/// While nothing is drawn, the first page in line is. While one page is drawn, an urgent
/// one may join. No more than two are drawn at once. The others stay in line as they are.
pub proof fn lemma_first_in_line_is_drawn(c: CacheModel)
    ensures
        c.queue.len() > 0 && (c.active == 0 || c.active == 1 && c.queue[0].1.priority) ==> {
            let d = started(c);
            &&& c.queue == seq![c.queue[0]] + d.queue
            &&& d.active == c.active + 1
            &&& d.in_flight == c.in_flight
            &&& d.pages == c.pages
        },
        c.queue.len() == 0 || c.active >= 2 || c.active == 1 && !c.queue[0].1.priority
            ==> started(c) == c,
{
    if c.queue.len() > 0 {
        assert(c.queue =~= seq![c.queue[0]] + c.queue.skip(1));
    }
}

/// A page that has been drawn for the document and the width as they still are is found
/// afterwards, with what was drawn of it. It is not under way any more. Other pages that
/// have been drawn stay.
pub proof fn lemma_drawn_page_is_found(
    c: CacheModel,
    path: PathKey,
    id: PageId,
    image: Raster,
    file: Option<String>,
)
    requires
        value_of(c.generations, path) == Some(id.generation),
        value_of(c.widths, path) == Some(id.width),
    ensures
        ({
            let d = drawn(c, path, id, Some(image), file);
            &&& page_from(d.pages, path, id, 0) == Some(RenderedPage { id, image })
            &&& forall|e: (PathKey, RenderedPage)|
                !(e.0 == path && e.1.id == id) && c.pages.contains(e)
                    ==> #[trigger] d.pages.contains(e)
            &&& !d.in_flight.contains((path, id))
            &&& !d.cancellations.contains((path, id))
            &&& forall|e: (PathKey, PageId)|
                e != (path, id) && c.in_flight.contains(e) ==> #[trigger] d.in_flight.contains(e)
            &&& c.active > 0 ==> d.active == c.active - 1
            &&& d.generations == c.generations
            &&& d.queue == c.queue
        }),
{
    broadcast use vstd::seq_lib::group_filter_ensures;

    let d = drawn(c, path, id, Some(image), file);
    let f = other_drawing(path, id);
    let w = c.pages.filter(f);
    assert forall|j: int| 0 <= j < w.len() implies !((#[trigger] d.pages[j]).0 == path
        && d.pages[j].1.id == id) by {
        assert(d.pages[j] == w[j]);
        assert(f(w[j]));
    }
    lemma_page_at(d.pages, path, id, 0, w.len() as int);
    assert forall|e: (PathKey, RenderedPage)|
        !(e.0 == path && e.1.id == id) && c.pages.contains(e) implies #[trigger] d.pages.contains(e) by {
        assert(f(e));
        assert(w.contains(e));
        let j = choose|j: int| 0 <= j < w.len() && w[j] == e;
        assert(d.pages[j] == e);
    }
    let g = other_page(path, id);
    assert(!g((path, id)));
    assert forall|e: (PathKey, PageId)| e != (path, id) && c.in_flight.contains(e) implies #[trigger] d.in_flight.contains(e) by {
        assert(g(e));
    }
    assert(d.pages[w.len() as int].0 == path);
    assert(has_document(d.pages, path));
}

proof fn lemma_page_at(v: Seq<(PathKey, RenderedPage)>, path: PathKey, id: PageId, k: int, i: int)
    requires
        0 <= k <= i < v.len(),
        v[i].0 == path && v[i].1.id == id,
        forall|j: int| k <= j < i ==> !((#[trigger] v[j]).0 == path && v[j].1.id == id),
    ensures
        page_from(v, path, id, k) == Some(v[i].1),
    decreases i - k,
{
    if k < i {
        assert(!(v[k].0 == path && v[k].1.id == id));
        lemma_page_at(v, path, id, k + 1, i);
    }
}

/// The number of pages of a document is asked for once, and known when it has been found
/// out: a document has one page at least. When the document has been written anew, it is
/// asked for again, and a late answer is not taken.
pub proof fn lemma_pages_are_counted_once(c: CacheModel, path: PathKey, count: usize)
    requires
        value_of(c.generations, path) is Some,
        count_step(c, path) is Query,
    ensures
        ({
            let generation = value_of(c.generations, path)->0;
            let asked = count_asked(c, path);
            let told = count_noted(asked, path, generation, count);
            let anew = pages_dropped(told, path);
            &&& count_step(c, path) == CountStep::Query { generation }
            &&& count_step(asked, path) == CountStep::Wait
            &&& count_step(told, path) == CountStep::Known(
                if count == 0 {
                    1
                } else {
                    count
                },
            )
            &&& count_asked(told, path).counting == told.counting
            &&& count_step(anew, path) is Query
            &&& generation < u64::MAX ==> count_noted(anew, path, generation, count).counts
                == anew.counts
        }),
{
    broadcast use vstd::seq_lib::group_filter_ensures;

    let generation = value_of(c.generations, path)->0;
    let asked = count_asked(c, path);
    assert(asked.counting[c.counting.len() as int] == (path, generation));
    let told = count_noted(asked, path, generation, count);
    let f = other_count(path, generation);
    let w = asked.counts.filter(f);
    assert forall|j: int| 0 <= j < w.len() implies !((#[trigger] told.counts[j]).0 == path
        && told.counts[j].1.generation == generation) by {
        assert(told.counts[j] == w[j]);
        assert(f(w[j]));
    }
    lemma_count_at(told.counts, path, generation, 0, w.len() as int);
    let anew = pages_dropped(told, path);
    let n = next_generation(generation);
    lemma_with_value(told.generations, path, n);
    lemma_kept(told.counts, path, false);
    lemma_kept(told.counting, path, false);
    lemma_not_counted(anew.counts, path, n, 0);
    if anew.counting.contains((path, n)) {
        let j = choose|j: int| 0 <= j < anew.counting.len() && anew.counting[j] == (path, n);
        assert(kept(told.counting, path, false)[j].0 != path);
    }
}

proof fn lemma_count_at(
    v: Seq<(PathKey, PageCount)>,
    path: PathKey,
    generation: u64,
    k: int,
    i: int,
)
    requires
        0 <= k <= i < v.len(),
        v[i].0 == path && v[i].1.generation == generation,
        forall|j: int|
            k <= j < i ==> !((#[trigger] v[j]).0 == path && v[j].1.generation == generation),
    ensures
        count_from(v, path, generation, k) == Some(v[i].1.count),
    decreases i - k,
{
    if k < i {
        assert(!(v[k].0 == path && v[k].1.generation == generation));
        lemma_count_at(v, path, generation, k + 1, i);
    }
}

proof fn lemma_not_counted(v: Seq<(PathKey, PageCount)>, path: PathKey, generation: u64, k: int)
    requires
        0 <= k <= v.len(),
        forall|j: int| 0 <= j < v.len() ==> (#[trigger] v[j]).0 != path,
    ensures
        count_from(v, path, generation, k) is None,
    decreases v.len() - k,
{
    if k < v.len() {
        assert(v[k].0 != path);
        lemma_not_counted(v, path, generation, k + 1);
    }
}

} // verus!
