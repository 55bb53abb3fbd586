//! The viewer of documents: scrolling through the pages, and what a picture of them
//! holds.
//!
//! Heights and scroll positions are in thousandths of a pixel.

use crate::kitty::{
    covered, frame_placed, fully_covered, id_color, id_color_text, image_upload, kitty_transmit,
    render_kitty_placeholders, writes_view, zlib_of, Area, CellWrite, EncodedFrame,
    FrameView, WriteView,
};
use crate::model::{App, Page, PdfState};
use crate::paths::{name_shown, path_key, same_path, shown_name, PathKey};
use crate::pdf_cache::{
    cancel_render_jobs, cancelled, count_asked, count_step, current_page_id, find_page, has_page,
    items, lookup, page_count, page_requested, request_page, stopped, value_of, with_value,
    CacheModel, CountStep, CropKey, CropView, Job, Owned, PageCache, PageId, Position, RenderedPage,
    Stale, StaleView, DPI,
};
use crate::raster::{
    blank_at_least, crop_and_stitch, crop_single_with_padding, crop_view, fit_page_to_viewport,
    page_fitted, rows_padded, rows_shown, rows_stitched, scaling_fits, size_fits, Image, Raster,
};
use crate::strings::{concat, decimal, same_text, to_decimal};
use crate::text::{max, min, push_text};
use vstd::prelude::*;

verus! {

// ---------------------------------------------------------------------------
// Positions
// ---------------------------------------------------------------------------

/// Bound on scroll positions, far beyond any document.
pub const SCROLL_LIMIT: i128 = 0x10_0000_0000_0000_0000_0000_0000;

/// Bound on places that are reckoned with on the way.
pub const PLACE_LIMIT: i128 = 0x1000_0000_0000_0000_0000_0000_0000_0000;

/// Bound on the height that a page is taken to have while it is not known.
pub const HEIGHT_LIMIT: i128 = 0x1000_0000_0000;

/// Height of a page while it is not known.
pub const USUAL_HEIGHT: i128 = 1_000_000;

/// Pages that have been drawn.
pub open spec fn height_from(pages: Seq<(PathKey, RenderedPage)>, page: int, usual: int, k: int) -> int
    decreases pages.len() - k,
{
    if k < 0 || k >= pages.len() {
        usual
    } else if pages[k].1.id.page == page {
        pages[k].1.image.height * 1000
    } else {
        height_from(pages, page, usual, k + 1)
    }
}

/// Height of a page: that of the first drawing of it, or the usual one.
pub open spec fn height(pages: Seq<(PathKey, RenderedPage)>, page: int, usual: int) -> int {
    height_from(pages, page, usual, 0)
}

proof fn lemma_height(pages: Seq<(PathKey, RenderedPage)>, page: int, usual: int, k: int)
    requires
        0 <= usual <= HEIGHT_LIMIT,
    ensures
        0 <= height_from(pages, page, usual, k) <= HEIGHT_LIMIT,
    decreases pages.len() - k,
{
    if 0 <= k < pages.len() && pages[k].1.id.page != page {
        lemma_height(pages, page, usual, k + 1);
    }
}

/// Height of a page.
pub fn get_page_height_helper(page: usize, pages: &Vec<Owned<RenderedPage>>, usual: i128) -> (r: i128)
    requires
        0 <= usual <= HEIGHT_LIMIT,
    ensures
        r == height(items(pages@), page as int, usual as int),
        0 <= r <= HEIGHT_LIMIT,
{
    proof {
        lemma_height(items(pages@), page as int, usual as int, 0);
    }
    let mut k: usize = 0;
    while k < pages.len()
        invariant
            k <= pages@.len(),
            height(items(pages@), page as int, usual as int) == height_from(
                items(pages@),
                page as int,
                usual as int,
                k as int,
            ),
        decreases pages@.len() - k,
    {
        assert(items(pages@)[k as int].1 == pages@[k as int].item);
        if pages[k].item.id.page == page {
            return pages[k].item.image.height as i128 * 1000;
        }
        k = k + 1;
    }
    usual
}

/// A position moved on to the page that it lies on.
pub open spec fn forward(
    pages: Seq<(PathKey, RenderedPage)>,
    page: int,
    scroll: int,
    total: int,
    usual: int,
) -> (int, int)
    decreases total - page,
{
    let h = height(pages, page, usual);
    if scroll >= h && page < total {
        forward(pages, page + 1, scroll - h, total, usual)
    } else {
        (page, scroll)
    }
}

/// A position before a page moved back to the page that it lies on.
pub open spec fn backward(pages: Seq<(PathKey, RenderedPage)>, page: int, scroll: int, usual: int) -> (
    int,
    int,
)
    decreases page,
{
    if scroll < 0 && page > 1 {
        backward(pages, page - 1, scroll + height(pages, page - 1, usual), usual)
    } else {
        (page, scroll)
    }
}

/// A position given by the page that it lies on, as far as there are pages.
pub open spec fn normalized(
    pages: Seq<(PathKey, RenderedPage)>,
    page: int,
    scroll: int,
    total: int,
    usual: int,
) -> (int, int) {
    if scroll < 0 {
        backward(pages, page, scroll, usual)
    } else {
        forward(pages, page, scroll, total, usual)
    }
}

/// Height of the pages from `a` up to `b`.
pub open spec fn heights(pages: Seq<(PathKey, RenderedPage)>, a: int, b: int, usual: int) -> int
    decreases b - a,
{
    if a >= b {
        0
    } else {
        heights(pages, a, b - 1, usual) + height(pages, b - 1, usual)
    }
}

/// A position as it is seen from the start of another page.
pub open spec fn relative(
    pages: Seq<(PathKey, RenderedPage)>,
    page: int,
    scroll: int,
    from: int,
    usual: int,
) -> int {
    if page >= from {
        heights(pages, from, page, usual) + scroll
    } else {
        scroll - heights(pages, page, from, usual)
    }
}

proof fn lemma_heights_split(
    pages: Seq<(PathKey, RenderedPage)>,
    a: int,
    b: int,
    c: int,
    usual: int,
)
    requires
        a <= b <= c,
    ensures
        heights(pages, a, c, usual) == heights(pages, a, b, usual) + heights(pages, b, c, usual),
    decreases c - b,
{
    if b < c {
        lemma_heights_split(pages, a, b, c - 1, usual);
    }
}

proof fn lemma_heights_first(pages: Seq<(PathKey, RenderedPage)>, a: int, b: int, usual: int)
    requires
        a < b,
    ensures
        heights(pages, a, b, usual) == height(pages, a, usual) + heights(pages, a + 1, b, usual),
{
    lemma_heights_split(pages, a, a + 1, b, usual);
    assert(heights(pages, a, a + 1, usual) == heights(pages, a, a, usual) + height(pages, a, usual));
}

/// Giving a position by the page that it lies on does not move it.
pub proof fn lemma_normalized_keeps_place(
    pages: Seq<(PathKey, RenderedPage)>,
    page: int,
    scroll: int,
    total: int,
    usual: int,
    from: int,
)
    requires
        1 <= page,
        0 <= usual <= HEIGHT_LIMIT,
    ensures
        ({
            let (p, s) = normalized(pages, page, scroll, total, usual);
            &&& relative(pages, p, s, from, usual) == relative(pages, page, scroll, from, usual)
            &&& p >= 1
            &&& s >= 0 || p == 1
            &&& s < height(pages, p, usual) || p >= total
        }),
    decreases
            if scroll < 0 {
                page
            } else {
                total - page
            },
{
    lemma_height(pages, page, usual, 0);
    if scroll < 0 {
        if page > 1 {
            let h = height(pages, page - 1, usual);
            lemma_height(pages, page - 1, usual, 0);
            lemma_step(pages, page - 1, scroll + h, from, usual);
            assert(scroll + h - h == scroll);
            assert(normalized(pages, page, scroll, total, usual) == backward(
                pages,
                page - 1,
                scroll + h,
                usual,
            ));
            if scroll + h < 0 {
                lemma_normalized_keeps_place(pages, page - 1, scroll + h, total, usual, from);
            } else {
                assert(backward(pages, page - 1, scroll + h, usual) == (page - 1, scroll + h));
            }
        }
    } else if scroll >= height(pages, page, usual) && page < total {
        let h = height(pages, page, usual);
        lemma_step(pages, page, scroll, from, usual);
        lemma_normalized_keeps_place(pages, page + 1, scroll - h, total, usual, from);
    }
}

proof fn lemma_step(
    pages: Seq<(PathKey, RenderedPage)>,
    page: int,
    scroll: int,
    from: int,
    usual: int,
)
    ensures
        relative(pages, page + 1, scroll - height(pages, page, usual), from, usual) == relative(
            pages,
            page,
            scroll,
            from,
            usual,
        ),
{
    if page >= from {
        assert(heights(pages, from, page + 1, usual) == heights(pages, from, page, usual) + height(
            pages,
            page,
            usual,
        ));
    } else {
        lemma_heights_first(pages, page, from, usual);
    }
}

/// Gives a position by the page that it lies on.
pub fn normalize_coords(
    page: usize,
    offset: i128,
    total_pages: usize,
    pages: &Vec<Owned<RenderedPage>>,
    usual: i128,
) -> (r: (usize, i128))
    requires
        0 <= usual <= HEIGHT_LIMIT,
        -PLACE_LIMIT < offset < PLACE_LIMIT,
    ensures
        (r.0 as int, r.1 as int) == normalized(
            items(pages@),
            page as int,
            offset as int,
            total_pages as int,
            usual as int,
        ),
        offset >= 0 ==> 0 <= r.1 <= offset,
        offset < 0 ==> offset <= r.1 <= HEIGHT_LIMIT,
        page >= 1 ==> r.0 >= 1,
{
    let ghost p = items(pages@);
    let mut page: usize = page;
    let mut scroll: i128 = offset;
    let ghost first = page as int;
    if scroll < 0 {
        while scroll < 0 && page > 1
            invariant
                0 <= usual <= HEIGHT_LIMIT,
                p == items(pages@),
                offset <= scroll <= HEIGHT_LIMIT,
                first >= 1 ==> page >= 1,
                backward(p, page as int, scroll as int, usual as int) == backward(
                    p,
                    first,
                    offset as int,
                    usual as int,
                ),
            decreases page,
        {
            let h: i128 = get_page_height_helper(page - 1, pages, usual);
            page = page - 1;
            scroll = scroll + h;
        }
    } else {
        loop
            invariant_except_break
                0 <= scroll <= offset,
                forward(p, page as int, scroll as int, total_pages as int, usual as int)
                    == forward(p, first, offset as int, total_pages as int, usual as int),
            invariant
                0 <= usual <= HEIGHT_LIMIT,
                p == items(pages@),
                first >= 1 ==> page >= 1,
            ensures
                0 <= scroll <= offset,
                (page as int, scroll as int) == forward(
                    p,
                    first,
                    offset as int,
                    total_pages as int,
                    usual as int,
                ),
            decreases total_pages - page,
        {
            let h: i128 = get_page_height_helper(page, pages, usual);
            if scroll >= h && page < total_pages {
                scroll = scroll - h;
                page = page + 1;
            } else {
                break ;
            }
        }
    }
    (page, scroll)
}

fn sum_heights(pages: &Vec<Owned<RenderedPage>>, a: usize, b: usize, usual: i128) -> (r: i128)
    requires
        0 <= usual <= HEIGHT_LIMIT,
        a <= b,
    ensures
        r == heights(items(pages@), a as int, b as int, usual as int),
        0 <= r <= (b - a) * HEIGHT_LIMIT,
{
    let mut sum: i128 = 0;
    let mut p: usize = a;
    while p < b
        invariant
            a <= p <= b,
            0 <= usual <= HEIGHT_LIMIT,
            sum == heights(items(pages@), a as int, p as int, usual as int),
            0 <= sum <= (p - a) * HEIGHT_LIMIT,
        decreases b - p,
    {
        sum = sum + get_page_height_helper(p, pages, usual);
        p = p + 1;
    }
    sum
}

/// A position as it is seen from the start of another page.
pub fn to_relative_px(
    page: usize,
    offset: i128,
    current_page: usize,
    pages: &Vec<Owned<RenderedPage>>,
    usual: i128,
) -> (r: i128)
    requires
        0 <= usual <= HEIGHT_LIMIT,
        -SCROLL_LIMIT <= offset <= SCROLL_LIMIT,
    ensures
        r == relative(
            items(pages@),
            page as int,
            offset as int,
            current_page as int,
            usual as int,
        ),
        -SCROLL_LIMIT - usize::MAX * HEIGHT_LIMIT <= r <= SCROLL_LIMIT + usize::MAX * HEIGHT_LIMIT,
{
    if page >= current_page {
        let sum: i128 = sum_heights(pages, current_page, page, usual);
        assert((page - current_page) * HEIGHT_LIMIT <= usize::MAX * HEIGHT_LIMIT);
        sum + offset
    } else {
        let sum: i128 = sum_heights(pages, page, current_page, usual);
        assert((current_page - page) * HEIGHT_LIMIT <= usize::MAX * HEIGHT_LIMIT);
        offset - sum
    }
}

/// Whether a position is one that can be reckoned with.
pub open spec fn in_bounds(p: Position) -> bool {
    -SCROLL_LIMIT <= p.scroll <= SCROLL_LIMIT
}

/// Whether the picture still moves towards where it has been scrolled to.
pub fn is_animating(g: &PageCache) -> (r: bool)
    requires
        in_bounds(g.target),
        in_bounds(g.current),
    ensures
        ({
            let diff = relative(
                g@.pages,
                g.target.page as int,
                g.target.scroll as int,
                g.current.page as int,
                USUAL_HEIGHT as int,
            ) - g.current.scroll;
            r == (diff > 1000 || diff < -1000)
        }),
{
    let to: i128 = to_relative_px(
        g.target.page,
        g.target.scroll,
        g.current.page,
        &g.pages,
        USUAL_HEIGHT,
    );
    let diff: i128 = to - g.current.scroll;
    diff > 1000 || diff < -1000
}

// ---------------------------------------------------------------------------
// Scrolling
// ---------------------------------------------------------------------------

/// The farthest that the last page is scrolled to.
pub open spec fn last_stop(c: CacheModel, page: int) -> int {
    max(height(c.pages, page, USUAL_HEIGHT as int) - c.viewport_h * 1000, 0)
}

/// Where a scroll by `delta` leads to: not before the first page where that is
/// watched, nor beyond the end of the last where that is.
pub open spec fn scrolled(c: CacheModel, total: int, delta: int, top: bool, bottom: bool) -> (int, int) {
    let (p, s) = normalized(
        c.pages,
        c.target.page as int,
        c.target.scroll + delta,
        total,
        USUAL_HEIGHT as int,
    );
    let t = if top && p == 1 && s < 0 {
        0
    } else {
        s
    };
    let b = if bottom && p == total {
        min(t, last_stop(c, p))
    } else {
        t
    };
    (p, b)
}

/// How far a position moves while it is given by the page that it lies on.
proof fn lemma_normalized_bounds(
    pages: Seq<(PathKey, RenderedPage)>,
    page: int,
    scroll: int,
    total: int,
    usual: int,
)
    requires
        1 <= page,
        0 <= usual <= HEIGHT_LIMIT,
    ensures
        ({
            let (p, s) = normalized(pages, page, scroll, total, usual);
            &&& page <= total ==> p <= total
            &&& scroll < 0 ==> scroll <= s < HEIGHT_LIMIT
            &&& scroll >= 0 ==> 0 <= s <= scroll
        }),
    decreases
            if scroll < 0 {
                page
            } else {
                total - page
            },
{
    lemma_height(pages, page, usual, 0);
    if scroll < 0 {
        if page > 1 {
            let h = height(pages, page - 1, usual);
            lemma_height(pages, page - 1, usual, 0);
            if scroll + h < 0 {
                lemma_normalized_bounds(pages, page - 1, scroll + h, total, usual);
            } else {
                assert(backward(pages, page - 1, scroll + h, usual) == (page - 1, scroll + h));
            }
        }
    } else if scroll >= height(pages, page, usual) && page < total {
        let h = height(pages, page, usual);
        lemma_normalized_bounds(pages, page + 1, scroll - h, total, usual);
    }
}

/// A position in the document stays where scrolling can go on from, as long as the
/// end that it is moved to is watched.
proof fn lemma_scrolled_bounds(c: CacheModel, total: int, delta: int, top: bool, bottom: bool)
    requires
        1 <= c.target.page <= total,
        in_bounds(c.target),
        top || delta >= 0,
        bottom || delta <= 0,
    ensures
        ({
            let (p, s) = scrolled(c, total, delta, top, bottom);
            1 <= p <= total && -SCROLL_LIMIT <= s <= SCROLL_LIMIT
        }),
{
    let page = c.target.page as int;
    let scroll = c.target.scroll + delta;
    let usual = USUAL_HEIGHT as int;
    lemma_normalized_bounds(c.pages, page, scroll, total, usual);
    lemma_normalized_keeps_place(c.pages, page, scroll, total, usual, 1);
    let (p, s) = normalized(c.pages, page, scroll, total, usual);
    lemma_height(c.pages, p, usual, 0);
}

fn scroll_target(g: &mut PageCache, total_pages: usize, delta: i128, top: bool, bottom: bool)
    requires
        in_bounds(old(g).target),
        -SCROLL_LIMIT <= delta <= SCROLL_LIMIT,
    ensures
        ({
            let (p, s) = scrolled(old(g)@, total_pages as int, delta as int, top, bottom);
            final(g)@ == (CacheModel {
                target: Position { page: p as usize, scroll: s as i128 },
                ..old(g)@
            })
        }),
        (top || delta >= 0) && (bottom || delta <= 0) && 1 <= old(g).target.page <= total_pages
            ==> in_bounds(final(g).target),
{
    let ghost c = g@;
    let (page, moved) = normalize_coords(
        g.target.page,
        g.target.scroll + delta,
        total_pages,
        &g.pages,
        USUAL_HEIGHT,
    );
    let mut scroll: i128 = moved;
    if top && page == 1 && scroll < 0 {
        scroll = 0;
    }
    if bottom && page == total_pages {
        let h: i128 = get_page_height_helper(page, &g.pages, USUAL_HEIGHT);
        let shown: i128 = g.last_viewport_h as i128 * 1000;
        let stop: i128 = if h > shown {
            h - shown
        } else {
            0
        };
        if scroll > stop {
            scroll = stop;
        }
    }
    g.target = Position { page, scroll };
    assert(g@ =~= (CacheModel { target: g.target, ..c }));
    proof {
        if (top || delta >= 0) && (bottom || delta <= 0) && 1 <= c.target.page <= total_pages {
            lemma_scrolled_bounds(c, total_pages as int, delta as int, top, bottom);
        }
    }
}

/// Number of rows as it is reckoned with.
pub open spec fn bounded_rows(rows: i64) -> int {
    min(max(rows as int, i32::MIN as int), i32::MAX as int)
}

/// Height of rows of the screen, which are sixteen pixels high where nothing else is
/// known.
pub open spec fn rows_height(font_h: Option<u16>, rows: i64) -> int {
    bounded_rows(rows) * font_h.unwrap_or(16) * 1000
}

/// The place of a position in the document, from the start of its first page.
pub open spec fn place_of(c: CacheModel, p: Position) -> int {
    relative(c.pages, p.page as int, p.scroll as int, 1, USUAL_HEIGHT as int)
}

/// The last place that is scrolled to: where the end of the document reaches the end of
/// the screen, or the start of the last page where that is farther.
pub open spec fn last_place(c: CacheModel, total: int) -> int {
    heights(c.pages, 1, total, USUAL_HEIGHT as int) + max(
        height(c.pages, total, USUAL_HEIGHT as int) - c.viewport_h * 1000,
        0,
    )
}

/// Whether the target has moved by a distance, as far as the document reaches, and
/// nothing else has changed.
pub open spec fn scrolled_by(before: CacheModel, after: CacheModel, total: int, delta: int) -> bool {
    let wanted = place_of(before, before.target) + delta;
    &&& after == CacheModel { target: after.target, ..before }
    &&& 1 <= after.target.page <= total
    &&& after.target.scroll >= 0
    &&& place_of(after, after.target) == max(min(wanted, last_place(before, total)), 0)
}

/// Scrolls by rows of the screen, which are `font_h` pixels high where that is
/// known.
pub fn scroll_by_rows(g: &mut PageCache, total_pages: usize, font_h: Option<u16>, delta_rows: i64)
    requires
        in_bounds(old(g).target),
    ensures
        ({
            let delta = rows_height(font_h, delta_rows);
            let (p, s) = scrolled(old(g)@, total_pages as int, delta, true, true);
            final(g)@ == (CacheModel {
                target: Position { page: p as usize, scroll: s as i128 },
                ..old(g)@
            })
        }),
        1 <= old(g).target.page <= total_pages ==> in_bounds(final(g).target),
        1 <= old(g).target.page <= total_pages ==> scrolled_by(
            old(g)@,
            final(g)@,
            total_pages as int,
            rows_height(font_h, delta_rows),
        ),
{
    let ghost c = g@;
    let rows: i64 = if delta_rows > 0x7fff_ffff {
        0x7fff_ffff
    } else if delta_rows < -0x8000_0000 {
        -0x8000_0000
    } else {
        delta_rows
    };
    let h: u16 = match font_h {
        Some(h) => h,
        None => 16,
    };
    assert(-0x8000_0000 * 0xffff <= rows * h <= 0x7fff_ffff * 0xffff) by (nonlinear_arith)
        requires
            -0x8000_0000 <= rows <= 0x7fff_ffff,
            0 <= h <= 0xffff,
    ;
    let delta: i128 = rows as i128 * h as i128 * 1000;
    scroll_target(g, total_pages, delta, true, true);
    proof {
        if 1 <= c.target.page <= total_pages {
            lemma_scrolled_bounds(c, total_pages as int, delta as int, true, true);
            lemma_scrolled_by(c, total_pages as int, delta as int);
        }
    }
}

/// Where a scroll back by nine tenths of the screen leads to.
pub open spec fn paged_up(c: CacheModel, total: int) -> (int, int) {
    scrolled(c, total, -(c.viewport_h * 900), true, false)
}

/// Where a scroll on by nine tenths of the screen leads to.
pub open spec fn paged_down(c: CacheModel, total: int) -> (int, int) {
    scrolled(c, total, c.viewport_h * 900, false, true)
}

/// Scrolls back by nine tenths of the screen.
pub fn page_up(g: &mut PageCache, total_pages: usize)
    requires
        in_bounds(old(g).target),
    ensures
        ({
            let (p, s) = paged_up(old(g)@, total_pages as int);
            final(g)@ == (CacheModel {
                target: Position { page: p as usize, scroll: s as i128 },
                ..old(g)@
            })
        }),
        1 <= old(g).target.page <= total_pages ==> in_bounds(final(g).target),
        1 <= old(g).target.page <= total_pages ==> {
            &&& final(g).target.page <= total_pages
            &&& place_of(final(g)@, final(g).target) == max(
                place_of(old(g)@, old(g).target) - old(g).last_viewport_h * 900,
                0,
            )
        },
{
    let ghost c = g@;
    let delta: i128 = g.last_viewport_h as i128 * 900;
    scroll_target(g, total_pages, -delta, true, false);
    proof {
        if 1 <= c.target.page <= total_pages {
            lemma_scrolled_bounds(c, total_pages as int, -delta as int, true, false);
            lemma_paged_up_place(c, total_pages as int);
        }
    }
}

/// Scrolls on by nine tenths of the screen.
pub fn page_down(g: &mut PageCache, total_pages: usize)
    requires
        in_bounds(old(g).target),
    ensures
        ({
            let (p, s) = paged_down(old(g)@, total_pages as int);
            final(g)@ == (CacheModel {
                target: Position { page: p as usize, scroll: s as i128 },
                ..old(g)@
            })
        }),
        1 <= old(g).target.page <= total_pages ==> in_bounds(final(g).target),
        1 <= old(g).target.page <= total_pages && old(g).target.scroll >= 0 ==> {
            &&& final(g).target.page <= total_pages
            &&& place_of(final(g)@, final(g).target) == min(
                place_of(old(g)@, old(g).target) + old(g).last_viewport_h * 900,
                last_place(old(g)@, total_pages as int),
            )
        },
{
    let ghost c = g@;
    let delta: i128 = g.last_viewport_h as i128 * 900;
    scroll_target(g, total_pages, delta, false, true);
    proof {
        if 1 <= c.target.page <= total_pages {
            lemma_scrolled_bounds(c, total_pages as int, delta as int, false, true);
            if c.target.scroll >= 0 {
                lemma_paged_down_place(c, total_pages as int);
            }
        }
    }
}

/// A page that there is.
pub open spec fn page_within(page: usize, total: usize) -> int {
    min(max(page as int, 1), max(total as int, 1))
}

/// Shows a page from its start, without moving towards it.
pub fn jump_to_page(g: &mut PageCache, pdf: &mut PdfState, page: usize)
    ensures
        ({
            let to = page_within(page, old(pdf).total_pages) as usize;
            let place = Position { page: to, scroll: 0 };
            &&& final(g)@ == (CacheModel {
                target: place,
                current: place,
                timed: false,
                crop: None,
                ..old(g)@
            })
            &&& *final(pdf) == (PdfState { page: to, scroll_y: 0, ..*old(pdf) })
        }),
{
    let ghost c = g@;
    let last: usize = if pdf.total_pages == 0 {
        1
    } else {
        pdf.total_pages
    };
    let to: usize = if page < 1 {
        1
    } else if page > last {
        last
    } else {
        page
    };
    g.target = Position { page: to, scroll: 0 };
    g.current = Position { page: to, scroll: 0 };
    g.timed = false;
    g.last_crop_key = None;
    pdf.page = to;
    pdf.scroll_y = 0;
    assert(g@ =~= (CacheModel {
        target: g.target,
        current: g.current,
        timed: false,
        crop: None,
        ..c
    }));
}

/// Whether `h` gives the height of every page: that of the first drawing of the page, or
/// `usual` while there is none.
pub open spec fn heights_are(pages: Seq<(PathKey, RenderedPage)>, usual: int, h: spec_fn(int) -> int) -> bool {
    forall|p: int| #[trigger]
        h(p) == usual && (forall|k: int|
            0 <= k < pages.len() ==> (#[trigger] pages[k]).1.id.page != p) || exists|k: int|
            {
                &&& 0 <= k < pages.len()
                &&& (#[trigger] pages[k]).1.id.page == p
                &&& h(p) == pages[k].1.image.height * 1000
                &&& forall|j: int| 0 <= j < k ==> (#[trigger] pages[j]).1.id.page != p
            }
}

/// Whether `top` gives the place at which every page starts.
pub open spec fn tops_are(h: spec_fn(int) -> int, top: spec_fn(int) -> int) -> bool {
    forall|p: int| #[trigger] h(p) == top(p + 1) - top(p)
}

proof fn lemma_height_is(
    pages: Seq<(PathKey, RenderedPage)>,
    p: int,
    usual: int,
    h: spec_fn(int) -> int,
    k: int,
)
    requires
        heights_are(pages, usual, h),
        0 <= k,
        forall|j: int| 0 <= j < k && j < pages.len() ==> (#[trigger] pages[j]).1.id.page != p,
    ensures
        height_from(pages, p, usual, k) == h(p),
    decreases pages.len() - k,
{
    if k < pages.len() {
        if pages[k].1.id.page != p {
            lemma_height_is(pages, p, usual, h, k + 1);
        } else {
            let hp = h(p);
            if !(exists|i: int|
                {
                    &&& 0 <= i < pages.len()
                    &&& (#[trigger] pages[i]).1.id.page == p
                    &&& hp == pages[i].1.image.height * 1000
                    &&& forall|j: int| 0 <= j < i ==> (#[trigger] pages[j]).1.id.page != p
                }) {
                assert(pages[k].1.id.page != p);
            } else {
                let i = choose|i: int|
                    {
                        &&& 0 <= i < pages.len()
                        &&& (#[trigger] pages[i]).1.id.page == p
                        &&& hp == pages[i].1.image.height * 1000
                        &&& forall|j: int| 0 <= j < i ==> (#[trigger] pages[j]).1.id.page != p
                    };
                if i < k {
                    assert(pages[i].1.id.page != p);
                } else if i > k {
                    assert(pages[k].1.id.page != p);
                }
            }
        }
    } else {
        let hp = h(p);
        assert(hp == usual);
    }
}

proof fn lemma_heights_are(
    pages: Seq<(PathKey, RenderedPage)>,
    a: int,
    b: int,
    usual: int,
    h: spec_fn(int) -> int,
    top: spec_fn(int) -> int,
)
    requires
        a <= b,
        heights_are(pages, usual, h),
        tops_are(h, top),
    ensures
        heights(pages, a, b, usual) == top(b) - top(a),
    decreases b - a,
{
    if a < b {
        lemma_heights_are(pages, a, b - 1, usual, h, top);
        lemma_height_is(pages, b - 1, usual, h, 0);
        assert(h(b - 1) == top(b) - top(b - 1));
    }
}

/// A position is seen from the start of a page at its distance from there, pages one
/// below the other.
pub proof fn lemma_relative_is_a_distance(
    pages: Seq<(PathKey, RenderedPage)>,
    page: int,
    scroll: int,
    from: int,
    usual: int,
    h: spec_fn(int) -> int,
    top: spec_fn(int) -> int,
)
    requires
        heights_are(pages, usual, h),
        tops_are(h, top),
    ensures
        relative(pages, page, scroll, from, usual) == top(page) + scroll - top(from),
        height(pages, page, usual) == h(page),
{
    lemma_height_is(pages, page, usual, h, 0);
    if page >= from {
        lemma_heights_are(pages, from, page, usual, h, top);
    } else {
        lemma_heights_are(pages, page, from, usual, h, top);
    }
}

proof fn lemma_heights_grow(pages: Seq<(PathKey, RenderedPage)>, a: int, b: int, usual: int)
    requires
        0 <= usual <= HEIGHT_LIMIT,
    ensures
        heights(pages, a, b, usual) >= 0,
    decreases b - a,
{
    if a < b {
        lemma_height(pages, b - 1, usual, 0);
        lemma_heights_grow(pages, a, b - 1, usual);
    }
}

proof fn lemma_paged_up_place(c: CacheModel, total: int)
    requires
        1 <= c.target.page <= total,
    ensures
        ({
            let (p, s) = paged_up(c, total);
            &&& 1 <= p <= total
            &&& s >= 0
            &&& relative(c.pages, p, s, 1, USUAL_HEIGHT as int) == max(
                place_of(c, c.target) - c.viewport_h * 900,
                0,
            )
        }),
{
    let usual = USUAL_HEIGHT as int;
    let page = c.target.page as int;
    let to = c.target.scroll - c.viewport_h * 900;
    lemma_normalized_bounds(c.pages, page, to, total, usual);
    lemma_normalized_keeps_place(c.pages, page, to, total, usual, 1);
    let (p, s) = normalized(c.pages, page, to, total, usual);
    lemma_heights_grow(c.pages, 1, p, usual);
}

proof fn lemma_paged_down_place(c: CacheModel, total: int)
    requires
        1 <= c.target.page <= total,
        c.target.scroll >= 0,
    ensures
        ({
            let (p, s) = paged_down(c, total);
            &&& 1 <= p <= total
            &&& s >= 0
            &&& relative(c.pages, p, s, 1, USUAL_HEIGHT as int) == min(
                place_of(c, c.target) + c.viewport_h * 900,
                last_place(c, total),
            )
        }),
{
    let usual = USUAL_HEIGHT as int;
    let page = c.target.page as int;
    let to = c.target.scroll + c.viewport_h * 900;
    lemma_normalized_bounds(c.pages, page, to, total, usual);
    lemma_normalized_keeps_place(c.pages, page, to, total, usual, 1);
    let (p, s) = normalized(c.pages, page, to, total, usual);
    lemma_before_last_page(c, total, p, s);
}

proof fn lemma_before_last_page(c: CacheModel, total: int, p: int, s: int)
    requires
        1 <= p <= total,
        s < height(c.pages, p, USUAL_HEIGHT as int) || p >= total,
    ensures
        p < total ==> relative(c.pages, p, s, 1, USUAL_HEIGHT as int) <= last_place(c, total),
{
    let usual = USUAL_HEIGHT as int;
    if p < total {
        lemma_heights_split(c.pages, 1, p, total, usual);
        lemma_heights_first(c.pages, p, total, usual);
        lemma_heights_grow(c.pages, p + 1, total, usual);
    }
}

proof fn lemma_scrolled_by(c: CacheModel, total: int, delta: int)
    requires
        1 <= c.target.page <= total,
    ensures
        ({
            let (p, s) = scrolled(c, total, delta, true, true);
            &&& 1 <= p <= total
            &&& s >= 0
            &&& relative(c.pages, p, s, 1, USUAL_HEIGHT as int) == max(
                min(place_of(c, c.target) + delta, last_place(c, total)),
                0,
            )
        }),
{
    let usual = USUAL_HEIGHT as int;
    let page = c.target.page as int;
    let to = c.target.scroll + delta;
    lemma_normalized_bounds(c.pages, page, to, total, usual);
    lemma_normalized_keeps_place(c.pages, page, to, total, usual, 1);
    let (p, s) = normalized(c.pages, page, to, total, usual);
    lemma_before_last_page(c, total, p, s);
    lemma_heights_grow(c.pages, 1, p, usual);
    lemma_heights_grow(c.pages, 1, total, usual);
}

/// Scrolling back by a screen moves the view by nine tenths of its height towards the
/// start of the document, over as many pages as that takes, and no farther than to the
/// start of the first page.
pub proof fn lemma_page_up_moves_nine_tenths(
    c: CacheModel,
    total: int,
    h: spec_fn(int) -> int,
    top: spec_fn(int) -> int,
)
    requires
        1 <= c.target.page <= total,
        heights_are(c.pages, 1_000_000, h),
        tops_are(h, top),
    ensures
        ({
            let (p, s) = paged_up(c, total);
            let old_place = top(c.target.page as int) + c.target.scroll;
            let wanted = old_place - c.viewport_h * 900;
            &&& 1 <= p <= total
            &&& s >= 0
            &&& wanted >= top(1) ==> top(p) + s == wanted
            &&& wanted < top(1) ==> p == 1 && s == 0
            &&& s < h(p) || p == total || s == 0
        }),
{
    let usual = USUAL_HEIGHT as int;
    let (p, s) = paged_up(c, total);
    let page = c.target.page as int;
    let to = c.target.scroll - c.viewport_h * 900;
    lemma_paged_up_place(c, total);
    lemma_normalized_keeps_place(c.pages, page, to, total, usual, 1);
    lemma_normalized_bounds(c.pages, page, to, total, usual);
    lemma_relative_is_a_distance(c.pages, page, c.target.scroll as int, 1, usual, h, top);
    lemma_relative_is_a_distance(c.pages, p, s, 1, usual, h, top);
    lemma_height(c.pages, p, usual, 0);
    let (q, t) = normalized(c.pages, page, to, total, usual);
    lemma_heights_grow(c.pages, 1, q, usual);
}

/// Scrolling on by a screen moves the view by nine tenths of its height towards the end
/// of the document, over as many pages as that takes. On the last page it stops where
/// the end of the page reaches the end of the screen.
pub proof fn lemma_page_down_moves_nine_tenths(
    c: CacheModel,
    total: int,
    h: spec_fn(int) -> int,
    top: spec_fn(int) -> int,
)
    requires
        1 <= c.target.page <= total,
        c.target.scroll >= 0,
        heights_are(c.pages, 1_000_000, h),
        tops_are(h, top),
    ensures
        ({
            let (p, s) = paged_down(c, total);
            let old_place = top(c.target.page as int) + c.target.scroll;
            let wanted = old_place + c.viewport_h * 900;
            let stop = if h(total) > c.viewport_h * 1000 {
                top(total) + h(total) - c.viewport_h * 1000
            } else {
                top(total)
            };
            &&& 1 <= p <= total
            &&& s >= 0
            &&& wanted <= stop ==> top(p) + s == wanted
            &&& wanted > stop ==> p == total && top(p) + s == stop
            &&& s < h(p) || p == total
        }),
{
    let usual = USUAL_HEIGHT as int;
    let (p, s) = paged_down(c, total);
    let page = c.target.page as int;
    let to = c.target.scroll + c.viewport_h * 900;
    lemma_paged_down_place(c, total);
    lemma_normalized_keeps_place(c.pages, page, to, total, usual, 1);
    lemma_normalized_bounds(c.pages, page, to, total, usual);
    lemma_relative_is_a_distance(c.pages, page, c.target.scroll as int, 1, usual, h, top);
    lemma_relative_is_a_distance(c.pages, p, s, 1, usual, h, top);
    lemma_relative_is_a_distance(c.pages, total, 0, 1, usual, h, top);
    lemma_height(c.pages, p, usual, 0);
    let (q, t) = normalized(c.pages, page, to, total, usual);
    lemma_before_last_page(c, total, q, t);
}

/// Scrolling by rows moves the view by their height, up or down, within the document.
pub proof fn lemma_rows_move_by_their_height(
    c: CacheModel,
    total: int,
    font_h: Option<u16>,
    rows: i64,
    h: spec_fn(int) -> int,
    top: spec_fn(int) -> int,
)
    requires
        1 <= c.target.page <= total,
        heights_are(c.pages, 1_000_000, h),
        tops_are(h, top),
        -0x8000_0000 <= rows <= 0x7fff_ffff,
    ensures
        ({
            let (p, s) = scrolled(c, total, rows_height(font_h, rows), true, true);
            let row = match font_h {
                Some(px) => px * 1000,
                None => 16_000,
            };
            let wanted = top(c.target.page as int) + c.target.scroll + rows * row;
            let stop = if h(total) > c.viewport_h * 1000 {
                top(total) + h(total) - c.viewport_h * 1000
            } else {
                top(total)
            };
            &&& 1 <= p <= total
            &&& s >= 0
            &&& top(1) <= wanted <= stop ==> top(p) + s == wanted
            &&& wanted > stop ==> p == total && top(p) + s == stop
            &&& wanted < top(1) ==> p == 1 && s == 0
        }),
{
    let usual = USUAL_HEIGHT as int;
    let delta = rows_height(font_h, rows);
    let row = match font_h {
        Some(px) => px * 1000,
        None => 16_000,
    };
    let px = font_h.unwrap_or(16) as int;
    assert(rows * px * 1000 == rows * (px * 1000)) by (nonlinear_arith);
    assert(delta == rows * row);
    let (p, s) = scrolled(c, total, delta, true, true);
    let page = c.target.page as int;
    let to = c.target.scroll + delta;
    lemma_scrolled_by(c, total, delta);
    lemma_normalized_keeps_place(c.pages, page, to, total, usual, 1);
    lemma_normalized_bounds(c.pages, page, to, total, usual);
    lemma_relative_is_a_distance(c.pages, page, c.target.scroll as int, 1, usual, h, top);
    lemma_relative_is_a_distance(c.pages, p, s, 1, usual, h, top);
    lemma_relative_is_a_distance(c.pages, total, 0, 1, usual, h, top);
    lemma_heights_grow(c.pages, 1, total, usual);
    let (q, t) = normalized(c.pages, page, to, total, usual);
    lemma_before_last_page(c, total, q, t);
    lemma_heights_grow(c.pages, 1, q, usual);
}

/// A screen back and a screen on again lead to where the view was, unless an end of the
/// document was in the way.
pub proof fn lemma_page_up_undoes_page_down(
    c: CacheModel,
    total: int,
    h: spec_fn(int) -> int,
    top: spec_fn(int) -> int,
)
    requires
        1 <= c.target.page <= total <= usize::MAX,
        0 <= c.target.scroll,
        c.target.scroll < h(c.target.page as int),
        heights_are(c.pages, 1_000_000, h),
        tops_are(h, top),
        top(c.target.page as int) + c.target.scroll + c.viewport_h * 900 <= top(total),
        forall|p: int| #[trigger] h(p) > 0,
    ensures
        ({
            let (p, s) = paged_down(c, total);
            let there = CacheModel {
                target: Position { page: p as usize, scroll: s as i128 },
                ..c
            };
            s <= i128::MAX ==> paged_up(there, total) == (
                c.target.page as int,
                c.target.scroll as int,
            )
        }),
{
    let (p, s) = paged_down(c, total);
    lemma_page_down_moves_nine_tenths(c, total, h, top);
    lemma_heights_are(c.pages, 1, c.target.page as int, USUAL_HEIGHT as int, h, top);
    lemma_heights_grow(c.pages, 1, c.target.page as int, USUAL_HEIGHT as int);
    if s <= i128::MAX {
        let there = CacheModel { target: Position { page: p as usize, scroll: s as i128 }, ..c };
        lemma_page_up_moves_nine_tenths(there, total, h, top);
        let (q, t) = paged_up(there, total);
        lemma_one_place(h, top, c.target.page as int, c.target.scroll as int, q, t);
    }
}

/// Two positions at the same place that lie on the pages that they name are the same.
proof fn lemma_one_place(
    h: spec_fn(int) -> int,
    top: spec_fn(int) -> int,
    p: int,
    s: int,
    q: int,
    t: int,
)
    requires
        tops_are(h, top),
        forall|k: int| #[trigger] h(k) > 0,
        top(p) + s == top(q) + t,
        0 <= s < h(p),
        0 <= t,
        q < p ==> t < h(q),
    ensures
        p == q && s == t,
{
    if p < q {
        lemma_tops_grow(h, top, p + 1, q);
        assert(h(p) == top(p + 1) - top(p));
    } else if q < p {
        lemma_tops_grow(h, top, q + 1, p);
        assert(h(q) == top(q + 1) - top(q));
    }
}

proof fn lemma_tops_grow(h: spec_fn(int) -> int, top: spec_fn(int) -> int, a: int, b: int)
    requires
        a <= b,
        tops_are(h, top),
        forall|k: int| #[trigger] h(k) > 0,
    ensures
        top(a) <= top(b),
    decreases b - a,
{
    if a < b {
        lemma_tops_grow(h, top, a, b - 1);
        assert(h(b - 1) == top(b) - top(b - 1));
    }
}

/// A step of the picture towards where it has been scrolled to brings it there by a part
/// of the way, never past it nor away from it; what is left of a pixel is done at once.
pub proof fn lemma_step_leads_to_the_target(
    c: CacheModel,
    total: int,
    usual: int,
    factor: int,
    h: spec_fn(int) -> int,
    top: spec_fn(int) -> int,
)
    requires
        1 <= c.current.page,
        0 <= usual <= HEIGHT_LIMIT,
        0 <= factor <= 1_000_000,
        heights_are(c.pages, usual, h),
        tops_are(h, top),
    ensures
        ({
            let (p, s) = stepped(c, total, usual, factor);
            let from = top(c.current.page as int) + c.current.scroll;
            let to = top(c.target.page as int) + c.target.scroll;
            let now = top(p) + s;
            &&& -1000 <= to - from <= 1000 ==> now == to
            &&& to - from > 1000 ==> {
                &&& from <= now <= to
                &&& (now - from) * 1_000_000 <= (to - from) * factor < (now - from + 1) * 1_000_000
            }
            &&& to - from < -1000 ==> {
                &&& to <= now <= from
                &&& (from - now) * 1_000_000 <= (from - to) * factor < (from - now + 1) * 1_000_000
            }
        }),
{
    let (p, s) = stepped(c, total, usual, factor);
    let page = c.current.page as int;
    let to = relative(c.pages, c.target.page as int, c.target.scroll as int, page, usual);
    let diff = to - c.current.scroll;
    let moved = if diff > 1000 || diff < -1000 {
        c.current.scroll + part_of(diff, factor)
    } else {
        to
    };
    lemma_relative_is_a_distance(
        c.pages,
        c.target.page as int,
        c.target.scroll as int,
        page,
        usual,
        h,
        top,
    );
    lemma_normalized_keeps_place(c.pages, page, moved, total, usual, page);
    lemma_relative_is_a_distance(c.pages, p, s, page, usual, h, top);
    lemma_relative_is_a_distance(c.pages, page, moved, page, usual, h, top);
    let size = if diff >= 0 {
        diff
    } else {
        -diff
    };
    assert(0 <= size * factor <= size * 1_000_000) by (nonlinear_arith)
        requires
            0 <= size,
            0 <= factor <= 1_000_000,
    ;
}

/// Scrolling never leads before the first page nor behind the last. It ends on the
/// page that it names, and on the last page never beyond the point where its end is
/// on the screen.
pub proof fn lemma_scroll_stays_in_document(c: CacheModel, total: int, delta: int)
    requires
        1 <= c.target.page,
    ensures
        ({
            let (p, s) = scrolled(c, total, delta, true, true);
            &&& p >= 1
            &&& s >= 0
            &&& c.target.page <= total ==> p <= total
            &&& p < total ==> s < height(c.pages, p, USUAL_HEIGHT as int) || s == 0
            &&& p == total ==> s <= last_stop(c, p)
        }),
{
    lemma_normalized_bounds(
        c.pages,
        c.target.page as int,
        c.target.scroll + delta,
        total,
        USUAL_HEIGHT as int,
    );
    lemma_normalized_keeps_place(
        c.pages,
        c.target.page as int,
        c.target.scroll + delta,
        total,
        USUAL_HEIGHT as int,
        1,
    );
}

// ---------------------------------------------------------------------------
// A picture
// ---------------------------------------------------------------------------

/// What is known of the terminal.
#[derive(Clone, Copy, Debug, PartialEq, Eq, Structural)]
pub struct Graphics {
    /// Size of a cell in pixels.
    pub font_w: u16,
    pub font_h: u16,
    /// Whether it takes images by the Kitty protocol.
    pub kitty: bool,
}

/// How far a picture has come before the pixels are needed.
#[derive(Clone, Copy, Debug, PartialEq, Eq, Structural)]
pub enum Outcome {
    /// No document is open.
    NoDocument,
    /// The terminal shows no images.
    NoGraphics,
    /// There is no room.
    NoRoom,
    /// The page has not been drawn yet.
    Loading,
    /// The page is there.
    Ready,
}

/// What a picture starts from: the state, the document, how far it came, and what
/// has to be done for it besides.
#[verifier::ext_equal]
pub struct Begun {
    pub cache: CacheModel,
    pub pdf: PdfState,
    pub outcome: Outcome,
    /// The number of pages has to be found out.
    pub question: Option<u64>,
    /// The pages whose drawing has to stop.
    pub stop: Seq<(PathKey, PageId)>,
}

/// Whether whole pages are shown: in the preview of a project.
pub open spec fn shows_whole_pages(app: App) -> bool {
    app.page == Page::Projects && app.project.active is Some && app.pdf.viewer@ == "internal"@
}

/// The state of the viewer once the number of pages is known.
pub open spec fn with_count(pdf: PdfState, step: CountStep) -> PdfState {
    match step {
        CountStep::Known(n) => PdfState {
            total_pages: n,
            page: min(pdf.page as int, max(n as int, 1)) as usize,
            ..pdf
        },
        _ => pdf,
    }
}

/// Tells the pages that stay: those of other documents, and of this one those near
/// the page that is shown that were drawn of it as it is, for the width.
pub open spec fn worth_keeping(path: PathKey, generation: u64, width: u32, page: usize) -> spec_fn(
    (PathKey, RenderedPage),
) -> bool {
    |e: (PathKey, RenderedPage)|
        e.0 != path || (e.1.id.generation == generation && e.1.id.width == width && e.1.id.page
            - page <= 2 && page - e.1.id.page <= 2)
}

/// A part of a distance, in millionths, rounded towards zero.
pub open spec fn part_of(diff: int, factor: int) -> int {
    if diff >= 0 {
        diff * factor / 1_000_000
    } else {
        -((-diff) * factor / 1_000_000)
    }
}

/// Where the picture is after a step towards where it has been scrolled to. A
/// remainder of a pixel is not worth a step.
pub open spec fn stepped(c: CacheModel, total: int, usual: int, factor: int) -> (int, int) {
    let to = relative(
        c.pages,
        c.target.page as int,
        c.target.scroll as int,
        c.current.page as int,
        usual,
    );
    let diff = to - c.current.scroll;
    let moved = if diff > 1000 || diff < -1000 {
        c.current.scroll + part_of(diff, factor)
    } else {
        to
    };
    normalized(c.pages, c.current.page as int, moved, total, usual)
}

/// The positions of the next picture. Whole pages are not scrolled; otherwise the
/// picture moves on where the time since the last one is known.
pub open spec fn moved_on(
    c: CacheModel,
    total: int,
    usual: int,
    page_fit: bool,
    step: Option<u32>,
) -> CacheModel {
    if page_fit {
        CacheModel {
            target: Position { scroll: 0, ..c.target },
            current: Position { scroll: 0, ..c.current },
            timed: true,
            ..c
        }
    } else {
        match step {
            Some(factor) => if c.timed {
                let (p, s) = stepped(c, total, usual, factor as int);
                CacheModel {
                    current: Position { page: p as usize, scroll: s as i128 },
                    timed: true,
                    ..c
                }
            } else {
                CacheModel { timed: true, ..c }
            },
            None => CacheModel { timed: true, ..c },
        }
    }
}

/// A quotient as a number of rows or pixels, as large as can be where it is none.
pub open spec fn whole_part(scroll: int, unit: int) -> u32 {
    if scroll <= -unit {
        u32::MAX
    } else if scroll < 0 {
        0
    } else {
        min(scroll / unit, u32::MAX as int) as u32
    }
}

/// The state once a page has been asked for, if there is one of that number.
pub open spec fn wanted(
    c: CacheModel,
    path: PathKey,
    page: int,
    total: usize,
    width: u32,
    priority: bool,
) -> CacheModel {
    if 1 <= page <= total {
        page_requested(c, path, current_page_id(c, path, page as usize, DPI, width), priority)
    } else {
        c
    }
}

/// The state once the page that is shown and its neighbours have been asked for.
pub open spec fn neighbours_wanted(c: CacheModel, path: PathKey, page: int, total: usize, width: u32) -> CacheModel {
    let c1 = wanted(c, path, page, total, width, true);
    let c2 = wanted(c1, path, page + 1, total, width, false);
    let c3 = wanted(c2, path, page - 1, total, width, false);
    let c4 = wanted(c3, path, page + 2, total, width, false);
    wanted(c4, path, page - 2, total, width, false)
}

/// Whether a page of a document is there, or is being drawn or in line for it.
pub open spec fn provided(c: CacheModel, path: PathKey, id: PageId) -> bool {
    has_page(c.pages, path, id) || c.in_flight.contains((path, id))
}

proof fn lemma_wanted(
    c: CacheModel,
    path: PathKey,
    page: int,
    total: usize,
    width: u32,
    priority: bool,
)
    ensures
        ({
            let d = wanted(c, path, page, total, width, priority);
            &&& d.generations == c.generations
            &&& forall|id: PageId| #[trigger]
                provided(d, path, id) <==> provided(c, path, id) || (1 <= page <= total && id
                    == current_page_id(c, path, page as usize, DPI, width))
        }),
{
    let id = current_page_id(c, path, page as usize, DPI, width);
    let d = wanted(c, path, page, total, width, priority);
    if 1 <= page <= total && !provided(c, path, id) {
        let n = c.in_flight.len() as int;
        assert(d.in_flight[n] == (path, id));
        assert forall|other: PageId| #[trigger] provided(d, path, other) <==> provided(
            c,
            path,
            other,
        ) || other == id by {
            if c.in_flight.contains((path, other)) {
                let i = choose|i: int| 0 <= i < n && c.in_flight[i] == (path, other);
                assert(d.in_flight[i] == (path, other));
            }
        }
    }
}

/// The pages that a picture asks for are those that the document has from two
/// before the one that is shown to two behind it: behind it each of them is there or
/// under way, and no other is that was not before.
pub proof fn lemma_neighbours_wanted(
    c: CacheModel,
    path: PathKey,
    page: int,
    total: usize,
    width: u32,
    id: PageId,
)
    ensures
        provided(neighbours_wanted(c, path, page, total, width), path, id) <==> provided(
            c,
            path,
            id,
        ) || (page - 2 <= id.page <= page + 2 && 1 <= id.page <= total && id == current_page_id(
            c,
            path,
            id.page,
            DPI,
            width,
        )),
{
    let c1 = wanted(c, path, page, total, width, true);
    let c2 = wanted(c1, path, page + 1, total, width, false);
    let c3 = wanted(c2, path, page - 1, total, width, false);
    let c4 = wanted(c3, path, page + 2, total, width, false);
    lemma_wanted(c, path, page, total, width, true);
    lemma_wanted(c1, path, page + 1, total, width, false);
    lemma_wanted(c2, path, page - 1, total, width, false);
    lemma_wanted(c3, path, page + 2, total, width, false);
    lemma_wanted(c4, path, page - 2, total, width, false);
}

/// Where the page that is shown is neither there nor under way, it is put in line
/// before all others.
pub proof fn lemma_shown_page_first(c: CacheModel, path: PathKey, page: int, total: usize, width: u32)
    requires
        1 <= page <= total,
        !provided(c, path, current_page_id(c, path, page as usize, DPI, width)),
    ensures
        ({
            let id = current_page_id(c, path, page as usize, DPI, width);
            neighbours_wanted(c, path, page, total, width).queue[0] == (
                path,
                Job { id, priority: true },
            )
        }),
{
}

/// The state once a picture of some size is being made.
pub open spec fn prepared(
    c: CacheModel,
    path: PathKey,
    page: usize,
    width: u32,
    height_px: u32,
) -> CacheModel {
    let generation = value_of(c.generations, path).unwrap_or(0);
    let d = cancelled(
        CacheModel {
            widths: with_value(c.widths, path, width),
            pages: c.pages.filter(worth_keeping(path, generation, width, page)),
            ..c
        },
        StaleView::OtherWidth { path, width },
    );
    CacheModel { viewport_h: height_px, ..d }
}

/// What a picture starts from.
pub open spec fn begun(
    c: CacheModel,
    app: App,
    area: Area,
    graphics: Option<Graphics>,
    step: Option<u32>,
) -> Begun {
    match app.pdf.path {
        None => Begun {
            cache: c,
            pdf: app.pdf,
            outcome: Outcome::NoDocument,
            question: None,
            stop: Seq::empty(),
        },
        Some(path) => {
            let known = count_step(c, path_key(path@));
            let question = match known {
                CountStep::Query { generation } => Some(generation),
                _ => None,
            };
            let c1 = count_asked(c, path_key(path@));
            let pdf1 = with_count(app.pdf, known);
            match graphics {
                None => Begun {
                    cache: c1,
                    pdf: pdf1,
                    outcome: Outcome::NoGraphics,
                    question,
                    stop: Seq::empty(),
                },
                Some(g) => {
                    let w = (area.width * g.font_w) as u32;
                    let h = (area.height * g.font_h) as u32;
                    if w == 0 || h == 0 {
                        Begun {
                            cache: c1,
                            pdf: pdf1,
                            outcome: Outcome::NoRoom,
                            question,
                            stop: Seq::empty(),
                        }
                    } else {
                        let c2 = prepared(c1, path_key(path@), pdf1.page, w, h);
                        let c3 = moved_on(
                            c2,
                            pdf1.total_pages as int,
                            h * 1500,
                            shows_whole_pages(app),
                            step,
                        );
                        let pdf2 = PdfState {
                            page: c3.current.page,
                            scroll_y: whole_part(c3.current.scroll as int, g.font_h * 1000),
                            ..pdf1
                        };
                        Begun {
                            cache: neighbours_wanted(
                                c3,
                                path_key(path@),
                                c3.current.page as int,
                                pdf2.total_pages,
                                w,
                            ),
                            pdf: pdf2,
                            outcome: if has_page(
                                c3.pages,
                                path_key(path@),
                                current_page_id(c3, path_key(path@), c3.current.page, DPI, w),
                            ) {
                                Outcome::Ready
                            } else {
                                Outcome::Loading
                            },
                            question,
                            stop: stopped(
                                c1.cancellations,
                                StaleView::OtherWidth { path: path_key(path@), width: w },
                            ),
                        }
                    }
                },
            }
        },
    }
}

fn keep_near(
    v: &mut Vec<Owned<RenderedPage>>,
    path: &str,
    generation: u64,
    width: u32,
    page: usize,
)
    ensures
        items(final(v)@) == items(old(v)@).filter(worth_keeping(path_key(path@), generation, width, page)),
{
    let ghost all = items(v@);
    let ghost p = worth_keeping(path_key(path@), generation, width, page);
    let n: usize = v.len();
    let mut rest: Vec<Owned<RenderedPage>> = Vec::new();
    let mut i: usize = 0;
    assert(all.take(0) =~= Seq::empty());
    assert(all.skip(0) =~= all);
    reveal(Seq::filter);
    while i < n
        invariant
            i <= n == all.len(),
            p == worth_keeping(path_key(path@), generation, width, page),
            items(v@) == all.skip(i as int),
            items(rest@) == all.take(i as int).filter(p),
        decreases n - i,
    {
        proof {
            reveal(Seq::filter);
            assert(all.take(i + 1).drop_last() =~= all.take(i as int));
            assert(all.take(i + 1).last() == all[i as int]);
            assert(items(v@).len() == v@.len());
        }
        let ghost before = items(rest@);
        let ghost left = items(v@);
        let entry = v.remove(0);
        assert(items(v@) =~= left.skip(1));
        assert(left.skip(1) =~= all.skip(i + 1));
        assert((path_key(entry.path@), entry.item) == left[0]);
        let ghost e = (path_key(entry.path@), entry.item);
        let id = entry.item.id;
        let near: bool = if id.page >= page {
            id.page - page <= 2
        } else {
            page - id.page <= 2
        };
        if !same_path(entry.path.as_str(), path) || (id.generation == generation && id.width == width
            && near) {
            rest.push(entry);
            assert(items(rest@) =~= before.push(e));
        }
        i = i + 1;
    }
    assert(all.take(i as int) =~= all);
    *v = rest;
}

fn take_part(diff: i128, factor: u32) -> (r: i128)
    requires
        factor <= 1_000_000,
        -PLACE_LIMIT < diff < PLACE_LIMIT,
    ensures
        r == part_of(diff as int, factor as int),
        diff >= 0 ==> 0 <= r <= diff,
        diff < 0 ==> diff <= r <= 0,
{
    let size: i128 = if diff >= 0 {
        diff
    } else {
        -diff
    };
    let f: i128 = factor as i128;
    let q: i128 = size / 1_000_000;
    let rest: i128 = size % 1_000_000;
    proof {
        lemma_part(size as int, factor as int, q as int, rest as int);
    }
    let part: i128 = q * f + rest * f / 1_000_000;
    if diff >= 0 {
        part
    } else {
        -part
    }
}

proof fn lemma_part(size: int, f: int, q: int, rest: int)
    requires
        0 <= size < PLACE_LIMIT,
        0 <= f <= 1_000_000,
        q == size / 1_000_000,
        rest == size % 1_000_000,
    ensures
        size * f / 1_000_000 == q * f + rest * f / 1_000_000,
        0 <= q * f <= q * 1_000_000 <= size,
        0 <= rest * f <= 1_000_000 * 1_000_000,
        0 <= size * f / 1_000_000 <= size,
        q * f + rest * f / 1_000_000 <= size,
{
    assert(size == q * 1_000_000 + rest);
    assert(0 <= q * f <= q * 1_000_000) by (nonlinear_arith)
        requires
            0 <= q,
            0 <= f <= 1_000_000,
    ;
    assert(0 <= rest * f <= rest * 1_000_000) by (nonlinear_arith)
        requires
            0 <= rest,
            0 <= f <= 1_000_000,
    ;
    assert(size * f == (q * f) * 1_000_000 + rest * f) by (nonlinear_arith)
        requires
            size == q * 1_000_000 + rest,
    ;
    let a = q * f;
    let b = rest * f;
    assert((a * 1_000_000 + b) / 1_000_000 == a + b / 1_000_000);
}

fn move_on(g: &mut PageCache, total: usize, usual: i128, page_fit: bool, step: Option<u32>)
    requires
        0 <= usual <= HEIGHT_LIMIT,
        in_bounds(old(g).target),
        in_bounds(old(g).current),
        step matches Some(f) ==> f <= 1_000_000,
    ensures
        final(g)@ == moved_on(old(g)@, total as int, usual as int, page_fit, step),
        final(g)@.pages == old(g)@.pages,
{
    let ghost c = g@;
    if page_fit {
        g.target = Position { page: g.target.page, scroll: 0 };
        g.current = Position { page: g.current.page, scroll: 0 };
    } else {
        match step {
            Some(factor) => {
                if g.timed {
                    let to: i128 = to_relative_px(
                        g.target.page,
                        g.target.scroll,
                        g.current.page,
                        &g.pages,
                        usual,
                    );
                    let diff: i128 = to - g.current.scroll;
                    let moved: i128 = if diff > 1000 || diff < -1000 {
                        g.current.scroll + take_part(diff, factor)
                    } else {
                        to
                    };
                    let (page, scroll) = normalize_coords(
                        g.current.page,
                        moved,
                        total,
                        &g.pages,
                        usual,
                    );
                    g.current = Position { page, scroll };
                }
            },
            None => {},
        }
    }
    g.timed = true;
    assert(g@ =~= moved_on(c, total as int, usual as int, page_fit, step));
}

fn to_whole(scroll: i128, unit: u32) -> (r: u32)
    requires
        unit > 0,
    ensures
        r == whole_part(scroll as int, unit as int),
{
    if scroll <= -(unit as i128) {
        u32::MAX
    } else if scroll < 0 {
        0
    } else {
        let q: i128 = scroll / (unit as i128);
        if q > 0xffff_ffff {
            u32::MAX
        } else {
            q as u32
        }
    }
}

fn want(g: &mut PageCache, path: &str, page: Option<usize>, total: usize, width: u32, priority: bool)
    ensures
        match page {
            Some(p) => final(g)@ == wanted(old(g)@, path_key(path@), p as int, total, width, priority),
            None => final(g)@ == old(g)@,
        },
{
    match page {
        Some(p) => {
            if 1 <= p && p <= total {
                request_page(g, path, p, DPI, width, priority);
            }
        },
        None => {},
    }
}

/// Shows what the number of pages is, or asks for it.
fn note_count(g: &mut PageCache, pdf: &mut PdfState, path: &str) -> (r: Option<u64>)
    ensures
        final(g)@ == count_asked(old(g)@, path_key(path@)),
        *final(pdf) == with_count(*old(pdf), count_step(old(g)@, path_key(path@))),
        r == match count_step(old(g)@, path_key(path@)) {
            CountStep::Query { generation } => Some(generation),
            _ => None,
        },
{
    match page_count(g, path) {
        CountStep::Known(n) => {
            pdf.total_pages = n;
            let last: usize = if n == 0 {
                1
            } else {
                n
            };
            if pdf.page > last {
                pdf.page = last;
            }
            None
        },
        CountStep::Wait => None,
        CountStep::Query { generation } => Some(generation),
    }
}

fn prepare(g: &mut PageCache, path: &str, page: usize, width: u32, height_px: u32) -> (r: Vec<
    Owned<PageId>,
>)
    ensures
        final(g)@ == prepared(old(g)@, path_key(path@), page, width, height_px),
        items(r@) == stopped(
            old(g)@.cancellations,
            StaleView::OtherWidth { path: path_key(path@), width },
        ),
{
    let ghost c = g@;
    let generation: u64 = match lookup(&g.document_generations, path) {
        Some(generation) => generation,
        None => 0,
    };
    crate::pdf_cache::note(&mut g.document_widths, path, width);
    keep_near(&mut g.pages, path, generation, width, page);
    let which = Stale::OtherWidth { path: path.to_owned(), width };
    let stop = cancel_render_jobs(g, &which);
    g.last_viewport_h = height_px;
    assert(g@ =~= prepared(c, path_key(path@), page, width, height_px));
    stop
}

/// Starts a picture of the document that is open: the positions move on, and pages
/// near the one that is shown are asked for.
pub fn begin_frame(
    g: &mut PageCache,
    app: &mut App,
    area: Area,
    graphics: Option<Graphics>,
    step: Option<u32>,
) -> (r: (Outcome, Option<u64>, Vec<Owned<PageId>>))
    requires
        in_bounds(old(g).target),
        in_bounds(old(g).current),
        step matches Some(f) ==> f <= 1_000_000,
    ensures
        ({
            let b = begun(old(g)@, *old(app), area, graphics, step);
            &&& final(g)@ == b.cache
            &&& *final(app) == (App { pdf: b.pdf, ..*old(app) })
            &&& r.0 == b.outcome
            &&& r.1 == b.question
            &&& items(r.2@) == b.stop
        }),
{
    let ghost c = g@;
    let mut stop: Vec<Owned<PageId>> = Vec::new();
    assert(items(stop@) =~= Seq::empty());
    let path = match &app.pdf.path {
        None => {
            return (Outcome::NoDocument, None, stop);
        },
        Some(path) => path.clone(),
    };
    let page_fit: bool = matches!(app.page, Page::Projects) && app.project.active.is_some()
        && same_text(app.pdf.viewer.as_str(), "internal");
    let question = note_count(g, &mut app.pdf, path.as_str());
    let graphics = match graphics {
        None => {
            return (Outcome::NoGraphics, question, stop);
        },
        Some(graphics) => graphics,
    };
    assert(area.width * graphics.font_w <= 0xffff * 0xffff && area.height * graphics.font_h
        <= 0xffff * 0xffff && area.width * graphics.font_w >= 0 && area.height * graphics.font_h
        >= 0) by (nonlinear_arith)
        requires
            area.width <= 0xffff,
            area.height <= 0xffff,
            graphics.font_w <= 0xffff,
            graphics.font_h <= 0xffff,
    ;
    let pixel_w: u32 = area.width as u32 * graphics.font_w as u32;
    let pixel_h: u32 = area.height as u32 * graphics.font_h as u32;
    if pixel_w == 0 || pixel_h == 0 {
        return (Outcome::NoRoom, question, stop);
    }
    assert(graphics.font_h > 0) by {
        if graphics.font_h == 0 {
            assert(area.height * 0 == 0);
        }
    }
    stop = prepare(g, path.as_str(), app.pdf.page, pixel_w, pixel_h);
    let total: usize = app.pdf.total_pages;
    move_on(g, total, pixel_h as i128 * 1500, page_fit, step);
    let page: usize = g.current.page;
    app.pdf.page = page;
    app.pdf.scroll_y = to_whole(g.current.scroll, graphics.font_h as u32 * 1000);
    let generation: u64 = match lookup(&g.document_generations, path.as_str()) {
        Some(generation) => generation,
        None => 0,
    };
    let id = PageId { generation, page, dpi: DPI, width: pixel_w };
    let there: bool = find_page(&g.pages, path.as_str(), id).is_some();
    want(g, path.as_str(), Some(page), total, pixel_w, true);
    want(g, path.as_str(), page.checked_add(1), total, pixel_w, false);
    want(g, path.as_str(), page.checked_sub(1), total, pixel_w, false);
    want(g, path.as_str(), page.checked_add(2), total, pixel_w, false);
    want(g, path.as_str(), page.checked_sub(2), total, pixel_w, false);
    (
        if there {
            Outcome::Ready
        } else {
            Outcome::Loading
        },
        question,
        stop,
    )
}

/// The part of a page that is shown: the whole page, or the rows from where it is
/// scrolled to, with the next page or a margin behind its end.
pub open spec fn picture(
    page: Image,
    next: Option<Image>,
    last: bool,
    scroll_px: u32,
    w: u32,
    h: u32,
    page_fit: bool,
) -> Image {
    if page_fit {
        page_fitted(page, w, h)
    } else if scroll_px + h > page.height {
        match next {
            Some(n) => if last {
                padded(page, scroll_px, h)
            } else if page.width == 0 || h == 0 {
                blank_at_least(page.width, h)
            } else {
                rows_stitched(page, n, scroll_px, h)
            },
            None => padded(page, scroll_px, h),
        }
    } else if page.width == 0 || page.height == 0 || h == 0 {
        blank_at_least(page.width, h)
    } else {
        rows_shown(page, scroll_px, h)
    }
}

/// The rows from where a page is scrolled to, with a margin behind its end.
pub open spec fn padded(page: Image, scroll_px: u32, h: u32) -> Image {
    if page.width == 0 || h == 0 {
        blank_at_least(page.width, h)
    } else {
        rows_padded(page, scroll_px, h)
    }
}

/// Whether a picture of a size can be made of an image, be it the whole of it or a
/// part.
pub open spec fn picture_fits(image: Raster, w: u32, h: u32, page_fit: bool) -> bool {
    &&& image.wf()
    &&& if page_fit {
        scaling_fits(image.width, image.height, w, h)
    } else {
        size_fits(image.width, h)
    }
}

/// The part of a page that is shown.
pub fn make_picture(
    page: &Raster,
    next: Option<&Raster>,
    last: bool,
    scroll_px: u32,
    w: u32,
    h: u32,
    page_fit: bool,
) -> (r: Raster)
    requires
        picture_fits(*page, w, h, page_fit),
        next matches Some(n) ==> n.wf(),
        w > 0,
        h > 0,
    ensures
        r.wf(),
        r@ == picture(
            page@,
            match next {
                Some(n) => Some(n@),
                None => None,
            },
            last,
            scroll_px,
            w,
            h,
            page_fit,
        ),
{
    if page_fit {
        return fit_page_to_viewport(page, w, h);
    }
    let end: u64 = scroll_px as u64 + h as u64;
    if end > page.height as u64 {
        if !last {
            match next {
                Some(n) => {
                    return crop_and_stitch(page, n, scroll_px, h);
                },
                None => {},
            }
        }
        crop_single_with_padding(page, scroll_px, h)
    } else {
        crop_view(page, scroll_px, h)
    }
}

/// The identifier of an image behind another. There is none of zero.
pub open spec fn id_behind(id: u32) -> u32 {
    if id == u32::MAX {
        1
    } else {
        (id + 1) as u32
    }
}

/// The state once a picture has been encoded under the next identifier. The image
/// of the same document that the terminal holds goes with it.
pub open spec fn frame_stored(
    c: CacheModel,
    path: PathKey,
    key: CropView,
    cols: u16,
    rows: u16,
    upload: Seq<char>,
) -> CacheModel {
    CacheModel {
        next_id: id_behind(c.next_id),
        encoded: Some(
            FrameView {
                transmit_seq: upload,
                image_id: c.next_id,
                cols,
                rows,
                id_color: id_color_text(c.next_id),
                retire_image_id: match c.resident {
                    Some(r) => if r.0 == path {
                        Some(r.1)
                    } else {
                        None
                    },
                    None => None,
                },
            },
        ),
        resident: Some((path, c.next_id)),
        crop: Some(key),
        ..c
    }
}

/// Keeps a picture that has been encoded.
pub fn store_frame(g: &mut PageCache, key: CropKey, cols: u16, rows: u16, upload: String)
    ensures
        final(g)@ == frame_stored(old(g)@, path_key(key.path@), key@, cols, rows, upload@),
{
    let ghost c = g@;
    let ghost k = key@;
    let id: u32 = g.next_kitty_id;
    g.next_kitty_id = if id == u32::MAX {
        1
    } else {
        id + 1
    };
    let retire_image_id: Option<u32> = match &g.resident_kitty_image {
        Some(resident) => {
            if same_path(resident.path.as_str(), key.path.as_str()) {
                Some(resident.item)
            } else {
                None
            }
        },
        None => None,
    };
    g.last_encoded = Some(
        EncodedFrame {
            transmit_seq: upload,
            image_id: id,
            cols,
            rows,
            id_color: id_color(id),
            retire_image_id,
        },
    );
    g.resident_kitty_image = Some(Owned { path: key.path.clone(), item: id });
    g.last_crop_key = Some(key);
    assert(g@ =~= frame_stored(c, k.path, k, cols, rows, g.last_encoded.unwrap()@.transmit_seq));
}

/// What goes to the screen of an encoded picture. The upload and the end of the
/// image before it go along, unless nothing of the picture is seen.
pub open spec fn sent(frame: FrameView, hidden: bool) -> FrameView {
    if !hidden && frame.transmit_seq.len() > 0 {
        frame
    } else {
        FrameView { transmit_seq: Seq::empty(), retire_image_id: None, ..frame }
    }
}

/// What is left to send of an encoded picture.
pub open spec fn left_to_send(frame: FrameView, hidden: bool) -> FrameView {
    if !hidden && frame.transmit_seq.len() > 0 {
        FrameView { transmit_seq: Seq::empty(), retire_image_id: None, ..frame }
    } else {
        frame
    }
}

/// An upload is sent once, as soon as something of its picture is seen.
pub proof fn lemma_upload_sent_once(frame: FrameView, hidden: bool)
    ensures
        sent(left_to_send(frame, false), hidden).transmit_seq == Seq::<char>::empty(),
        left_to_send(frame, true) == frame,
        sent(frame, false).transmit_seq == frame.transmit_seq,
{
    assert(frame.transmit_seq.len() == 0 ==> frame.transmit_seq =~= Seq::<char>::empty());
}

/// Takes what goes to the screen of the encoded picture, if there is one.
pub fn take_blit(g: &mut PageCache, hidden: bool) -> (r: Option<EncodedFrame>)
    ensures
        match old(g)@.encoded {
            Some(f) => {
                &&& r matches Some(b) && b@ == sent(f, hidden)
                &&& final(g)@ == (CacheModel {
                    encoded: Some(left_to_send(f, hidden)),
                    ..old(g)@
                })
            },
            None => r is None && final(g)@ == old(g)@,
        },
{
    let ghost c = g@;
    let mut held: Option<EncodedFrame> = None;
    std::mem::swap(&mut held, &mut g.last_encoded);
    match held {
        None => {
            assert(g@ =~= c);
            None
        },
        Some(encoded) => {
            let ghost f = encoded@;
            let send: bool = !hidden && !encoded.transmit_seq.as_str().is_empty();
            let none = String::new();
            assert(none@ =~= Seq::<char>::empty());
            let color = encoded.id_color.clone();
            let (blit, rest) = if send {
                (
                    EncodedFrame {
                        transmit_seq: encoded.transmit_seq,
                        image_id: encoded.image_id,
                        cols: encoded.cols,
                        rows: encoded.rows,
                        id_color: encoded.id_color,
                        retire_image_id: encoded.retire_image_id,
                    },
                    EncodedFrame {
                        transmit_seq: none,
                        image_id: encoded.image_id,
                        cols: encoded.cols,
                        rows: encoded.rows,
                        id_color: color,
                        retire_image_id: None,
                    },
                )
            } else {
                (
                    EncodedFrame {
                        transmit_seq: none,
                        image_id: encoded.image_id,
                        cols: encoded.cols,
                        rows: encoded.rows,
                        id_color: color,
                        retire_image_id: None,
                    },
                    encoded,
                )
            };
            assert(blit@ =~= sent(f, hidden));
            assert(rest@ =~= left_to_send(f, hidden));
            g.last_encoded = Some(rest);
            assert(g@ =~= (CacheModel { encoded: Some(left_to_send(f, hidden)), ..c }));
            Some(blit)
        },
    }
}

/// What a picture puts on the screen.
#[derive(Debug)]
pub enum Content {
    /// Nothing new.
    Nothing,
    /// An image that has been placed.
    Placed(Vec<CellWrite>),
    /// An image for a terminal that takes whole images.
    Picture(Raster),
}

/// What a picture puts on the screen.
#[verifier::ext_equal]
pub enum ContentView {
    Nothing,
    Placed(Seq<WriteView>),
    Picture(Image),
}

impl View for Content {
    type V = ContentView;

    open spec fn view(&self) -> ContentView {
        match self {
            Content::Nothing => ContentView::Nothing,
            Content::Placed(writes) => ContentView::Placed(writes_view(writes@)),
            Content::Picture(image) => ContentView::Picture(image@),
        }
    }
}

/// What the last part of a picture is made of.
#[verifier::ext_equal]
pub struct Frame {
    pub path: PathKey,
    pub page: usize,
    pub total: usize,
    pub image: Image,
    pub next: Option<Image>,
    pub w: u32,
    pub h: u32,
    pub font_h: u16,
    pub page_fit: bool,
}

/// How far the page is scrolled, in pixels.
pub open spec fn scroll_px(c: CacheModel, f: Frame) -> u32 {
    if f.page_fit {
        0
    } else {
        min(whole_part(c.current.scroll as int, 1000) as int, f.image.height as int) as u32
    }
}

/// The rows of the screen that a page can be scrolled by.
pub open spec fn max_scroll_rows(f: Frame) -> int {
    if f.page_fit {
        0
    } else {
        max(f.image.height - f.h, 0) / (f.font_h as int)
    }
}

/// The part of the page that is shown.
pub open spec fn crop_of(c: CacheModel, f: Frame) -> CropView {
    CropView {
        path: f.path,
        page: f.page,
        dpi: DPI,
        pixel_w: f.w,
        crop_y: scroll_px(c, f),
        crop_h: f.h,
        page_fit: f.page_fit,
    }
}

/// The image of that part.
pub open spec fn shown_image(c: CacheModel, f: Frame) -> Image {
    picture(f.image, f.next, f.page >= f.total, scroll_px(c, f), f.w, f.h, f.page_fit)
}

/// Whether the part has to be encoded: another one was last, or none.
pub open spec fn must_encode(c: CacheModel, f: Frame) -> bool {
    c.crop != Some(crop_of(c, f)) || c.encoded is None
}

/// The upload of an image under an identifier.
pub open spec fn uploaded(image: Image, id: u32) -> Seq<char> {
    image_upload(image, id, zlib_of(image.data))
}

/// The state, and what goes to the screen, once the picture is done.
pub open spec fn frame_finished(
    c: CacheModel,
    f: Frame,
    area: Area,
    occlusion: Option<Area>,
    kitty: bool,
) -> (CacheModel, ContentView) {
    if must_encode(c, f) && !kitty {
        (
            CacheModel { crop: Some(crop_of(c, f)), ..c },
            ContentView::Picture(shown_image(c, f)),
        )
    } else if !kitty {
        (c, ContentView::Nothing)
    } else {
        let d = if must_encode(c, f) {
            frame_stored(
                c,
                f.path,
                crop_of(c, f),
                area.width,
                area.height,
                uploaded(shown_image(c, f), c.next_id),
            )
        } else {
            c
        };
        let frame = d.encoded.unwrap();
        let hidden = covered(area, occlusion);
        (
            CacheModel { encoded: Some(left_to_send(frame, hidden)), ..d },
            ContentView::Placed(frame_placed(area, sent(frame, hidden), occlusion)),
        )
    }
}

fn same_crop(key: &CropKey, last: &Option<CropKey>) -> (r: bool)
    ensures
        r == (crate::pdf_cache::opt_crop(*last) == Some(key@)),
{
    match last {
        None => false,
        Some(l) => same_path(key.path.as_str(), l.path.as_str()) && key.page == l.page && key.dpi
            == l.dpi && key.pixel_w == l.pixel_w && key.crop_y == l.crop_y && key.crop_h
            == l.crop_h && key.page_fit == l.page_fit,
    }
}

/// The parts of a picture whose page is there.
pub open spec fn frame_of(c: CacheModel, app: App, path: PathKey, area: Area, graphics: Graphics) -> Frame {
    let w = (area.width * graphics.font_w) as u32;
    let page = c.current.page;
    let image = crate::pdf_cache::page_from(
        c.pages,
        path,
        current_page_id(c, path, page, DPI, w),
        0,
    ).unwrap().image@;
    Frame {
        path,
        page,
        total: app.pdf.total_pages,
        image,
        next: if page < usize::MAX {
            match crate::pdf_cache::page_from(
                c.pages,
                path,
                current_page_id(c, path, (page + 1) as usize, DPI, w),
                0,
            ) {
                Some(n) => Some(n.image@),
                None => None,
            }
        } else {
            None
        },
        w,
        h: (area.height * graphics.font_h) as u32,
        font_h: graphics.font_h,
        page_fit: shows_whole_pages(app),
    }
}

/// Whether pictures of a size can be made of all pages.
pub open spec fn pages_fit(c: CacheModel, area: Area, graphics: Graphics, page_fit: bool) -> bool {
    let w = area.width * graphics.font_w;
    let h = area.height * graphics.font_h;
    forall|i: int|
        0 <= i < c.pages.len() ==> picture_fits(
            (#[trigger] c.pages[i]).1.image,
            w as u32,
            h as u32,
            page_fit,
        )
}

proof fn lemma_found_fits(
    v: Seq<(PathKey, RenderedPage)>,
    path: PathKey,
    id: PageId,
    k: int,
    w: u32,
    h: u32,
    fit: bool,
)
    requires
        0 <= k,
        forall|i: int| 0 <= i < v.len() ==> picture_fits((#[trigger] v[i]).1.image, w, h, fit),
    ensures
        crate::pdf_cache::page_from(v, path, id, k) matches Some(p) ==> picture_fits(
            p.image,
            w,
            h,
            fit,
        ),
    decreases v.len() - k,
{
    if k < v.len() && !(v[k].0 == path && v[k].1.id == id) {
        lemma_found_fits(v, path, id, k + 1, w, h, fit);
    }
}

/// Makes the picture of a page that is there.
pub fn finish_frame(
    g: &mut PageCache,
    app: &mut App,
    path: &str,
    area: Area,
    occlusion: Option<Area>,
    graphics: Graphics,
) -> (r: Content)
    requires
        area.width * graphics.font_w > 0,
        area.height * graphics.font_h > 0,
        area.x + area.width <= 0xffff,
        area.y + area.height <= 0xffff,
        has_page(
            old(g)@.pages,
            path_key(path@),
            current_page_id(
                old(g)@,
                path_key(path@),
                old(g)@.current.page,
                DPI,
                (area.width * graphics.font_w) as u32,
            ),
        ),
        pages_fit(old(g)@, area, graphics, shows_whole_pages(*old(app))),
    ensures
        ({
            let f = frame_of(old(g)@, *old(app), path_key(path@), area, graphics);
            &&& (final(g)@, r@) == frame_finished(old(g)@, f, area, occlusion, graphics.kitty)
            &&& *final(app) == (App {
                pdf: PdfState {
                    page_pixel_h: f.image.height,
                    max_scroll_y: max_scroll_rows(f) as u32,
                    ..old(app).pdf
                },
                ..*old(app)
            })
        }),
{
    let ghost c = g@;
    let ghost f = frame_of(c, *app, path_key(path@), area, graphics);
    assert(area.width * graphics.font_w <= 0xffff * 0xffff && area.height * graphics.font_h
        <= 0xffff * 0xffff) by (nonlinear_arith)
        requires
            area.width <= 0xffff,
            area.height <= 0xffff,
            graphics.font_w <= 0xffff,
            graphics.font_h <= 0xffff,
    ;
    assert(graphics.font_h > 0) by {
        if graphics.font_h == 0 {
            assert(area.height * 0 == 0);
        }
    }
    let w: u32 = area.width as u32 * graphics.font_w as u32;
    let h: u32 = area.height as u32 * graphics.font_h as u32;
    let page: usize = g.current.page;
    let page_fit: bool = matches!(app.page, Page::Projects) && app.project.active.is_some()
        && same_text(app.pdf.viewer.as_str(), "internal");
    let generation: u64 = match lookup(&g.document_generations, path) {
        Some(generation) => generation,
        None => 0,
    };
    let found = find_page(&g.pages, path, PageId { generation, page, dpi: DPI, width: w });
    proof {
        lemma_found_fits(c.pages, path_key(path@), PageId { generation, page, dpi: DPI, width: w }, 0, w, h, page_fit);
    }
    let at: usize = match found {
        Some(at) => at,
        None => 0,
    };
    let page_h: u32 = g.pages[at].item.image.height;
    app.pdf.page_pixel_h = page_h;
    let max_scroll: u32 = if page_fit {
        0
    } else {
        page_h.saturating_sub(h) / (graphics.font_h as u32)
    };
    app.pdf.max_scroll_y = max_scroll;
    let scrolled: u32 = to_whole(g.current.scroll, 1000);
    let crop_y: u32 = if page_fit {
        0
    } else if scrolled < page_h {
        scrolled
    } else {
        page_h
    };
    let key = CropKey {
        path: path.to_owned(),
        page,
        dpi: DPI,
        pixel_w: w,
        crop_y,
        crop_h: h,
        page_fit,
    };
    assert(key@ =~= crop_of(c, f));
    let encode: bool = !same_crop(&key, &g.last_crop_key) || g.last_encoded.is_none();
    if encode {
        let last: bool = page >= app.pdf.total_pages;
        let next_at: Option<usize> = if page < usize::MAX {
            proof {
                lemma_found_fits(
                    c.pages,
                    path_key(path@),
                    PageId { generation, page: (page + 1) as usize, dpi: DPI, width: w },
                    0,
                    w,
                    h,
                    page_fit,
                );
            }
            find_page(&g.pages, path, PageId { generation, page: page + 1, dpi: DPI, width: w })
        } else {
            None
        };
        let next: Option<&Raster> = match next_at {
            Some(i) => Some(&g.pages[i].item.image),
            None => None,
        };
        let image = make_picture(&g.pages[at].item.image, next, last, crop_y, w, h, page_fit);
        assert(image@ =~= shown_image(c, f));
        if !graphics.kitty {
            g.last_crop_key = Some(key);
            proof {
                assert(g@ =~= (CacheModel { crop: Some(crop_of(c, f)), ..c }));
            }
            return Content::Picture(image);
        }
        let upload = kitty_transmit(&image, g.next_kitty_id);
        store_frame(g, key, area.width, area.height, upload);
    }
    if !graphics.kitty {
        return Content::Nothing;
    }
    let hidden: bool = fully_covered(area, occlusion);
    match take_blit(g, hidden) {
        Some(blit) => Content::Placed(render_kitty_placeholders(area, &blit, occlusion)),
        None => Content::Nothing,
    }
}

/// A picture, and what has to be done for it besides.
#[derive(Debug)]
pub struct Drawing {
    pub outcome: Outcome,
    pub content: Content,
    /// The number of pages has to be found out, of the document as it is at this
    /// generation.
    pub question: Option<u64>,
    /// The pages whose drawing has to stop.
    pub stop: Vec<Owned<PageId>>,
}

/// Whether a picture is what it has to be.
pub open spec fn drawn_well(
    c: CacheModel,
    app: App,
    after: CacheModel,
    app_after: App,
    area: Area,
    occlusion: Option<Area>,
    graphics: Option<Graphics>,
    step: Option<u32>,
    r: Drawing,
) -> bool {
    let b = begun(c, app, area, graphics, step);
    let mid = App { pdf: b.pdf, ..app };
    &&& r.outcome == b.outcome
    &&& r.question == b.question
    &&& items(r.stop@) == b.stop
    &&& if b.outcome == Outcome::Ready {
        let f = frame_of(b.cache, mid, path_key(app.pdf.path.unwrap()@), area, graphics.unwrap());
        &&& (after, r.content@) == frame_finished(
            b.cache,
            f,
            area,
            occlusion,
            graphics.unwrap().kitty,
        )
        &&& app_after == App {
            pdf: PdfState {
                page_pixel_h: f.image.height,
                max_scroll_y: max_scroll_rows(f) as u32,
                ..b.pdf
            },
            ..app
        }
    } else {
        after == b.cache && app_after == mid && r.content@ == ContentView::Nothing
    }
}

/// Makes a picture of the document that is open, in a part of the screen of which
/// some may be covered. `step` is the part of the way, in millionths, that the
/// picture moves towards where it has been scrolled to, where time has passed.
#[verifier::rlimit(40)]
pub fn draw_pdf_viewer_in_with_occlusion(
    g: &mut PageCache,
    app: &mut App,
    area: Area,
    occlusion: Option<Area>,
    graphics: Option<Graphics>,
    step: Option<u32>,
) -> (r: Drawing)
    requires
        in_bounds(old(g).target),
        in_bounds(old(g).current),
        step matches Some(f) ==> f <= 1_000_000,
        area.x + area.width <= 0xffff,
        area.y + area.height <= 0xffff,
        graphics matches Some(gr) ==> pages_fit(
            old(g)@,
            area,
            gr,
            shows_whole_pages(*old(app)),
        ),
    ensures
        drawn_well(
            old(g)@,
            *old(app),
            final(g)@,
            *final(app),
            area,
            occlusion,
            graphics,
            step,
            r,
        ),
{
    let ghost c = g@;
    let ghost a = *app;
    let (outcome, question, stop) = begin_frame(g, app, area, graphics, step);
    let ghost b = begun(c, a, area, graphics, step);
    if !matches!(outcome, Outcome::Ready) {
        return Drawing { outcome, content: Content::Nothing, question, stop };
    }
    let path = match &app.pdf.path {
        Some(path) => path.clone(),
        None => String::new(),
    };
    let graphics = match graphics {
        Some(graphics) => graphics,
        None => {
            return Drawing { outcome, content: Content::Nothing, question, stop };
        },
    };
    proof {
        lemma_begun(c, a, area, graphics, step);
    }
    let content = finish_frame(g, app, path.as_str(), area, occlusion, graphics);
    Drawing { outcome, content, question, stop }
}

proof fn lemma_wanted_pages(c: CacheModel, path: PathKey, page: int, total: usize, w: u32, p: bool)
    ensures
        wanted(c, path, page, total, w, p).pages == c.pages,
        wanted(c, path, page, total, w, p).generations == c.generations,
        wanted(c, path, page, total, w, p).current == c.current,
{
}

proof fn lemma_filtered_from<T>(s: Seq<T>, keep: spec_fn(T) -> bool, i: int)
    requires
        0 <= i < s.filter(keep).len(),
    ensures
        s.contains(s.filter(keep)[i]),
    decreases s.len(),
{
    reveal(Seq::filter);
    if s.len() > 0 {
        let t = s.drop_last();
        if i < t.filter(keep).len() {
            lemma_filtered_from(t, keep, i);
            let j = choose|j: int| 0 <= j < t.len() && t[j] == t.filter(keep)[i];
            assert(s[j] == s.filter(keep)[i]);
        } else {
            assert(s[s.len() - 1] == s.filter(keep)[i]);
        }
    }
}

/// What holds of the start of a picture whose page is there.
proof fn lemma_begun(c: CacheModel, app: App, area: Area, graphics: Graphics, step: Option<u32>)
    requires
        begun(c, app, area, Some(graphics), step).outcome == Outcome::Ready,
        pages_fit(c, area, graphics, shows_whole_pages(app)),
    ensures
        ({
            let b = begun(c, app, area, Some(graphics), step);
            let w = (area.width * graphics.font_w) as u32;
            let path = path_key(app.pdf.path.unwrap()@);
            &&& app.pdf.path is Some
            &&& b.pdf.path == app.pdf.path
            &&& has_page(
                b.cache.pages,
                path,
                current_page_id(b.cache, path, b.cache.current.page, DPI, w),
            )
            &&& pages_fit(b.cache, area, graphics, shows_whole_pages(app))
            &&& area.width * graphics.font_w > 0
            &&& area.height * graphics.font_h > 0
        }),
{
    let b = begun(c, app, area, Some(graphics), step);
    let path = path_key(app.pdf.path.unwrap()@);
    let known = count_step(c, path);
    let c1 = count_asked(c, path);
    let pdf1 = with_count(app.pdf, known);
    assert(0 <= area.width * graphics.font_w <= 0xffff * 0xffff && 0 <= area.height
        * graphics.font_h <= 0xffff * 0xffff) by (nonlinear_arith)
        requires
            0 <= area.width <= 0xffff,
            0 <= area.height <= 0xffff,
            0 <= graphics.font_w <= 0xffff,
            0 <= graphics.font_h <= 0xffff,
    ;
    let w = (area.width * graphics.font_w) as u32;
    let h = (area.height * graphics.font_h) as u32;
    let c2 = prepared(c1, path, pdf1.page, w, h);
    let c3 = moved_on(c2, pdf1.total_pages as int, h * 1500, shows_whole_pages(app), step);
    let p = c3.current.page as int;
    let t = pdf1.total_pages;
    let d1 = wanted(c3, path, p, t, w, true);
    let d2 = wanted(d1, path, p + 1, t, w, false);
    let d3 = wanted(d2, path, p - 1, t, w, false);
    let d4 = wanted(d3, path, p + 2, t, w, false);
    lemma_wanted_pages(c3, path, p, t, w, true);
    lemma_wanted_pages(d1, path, p + 1, t, w, false);
    lemma_wanted_pages(d2, path, p - 1, t, w, false);
    lemma_wanted_pages(d3, path, p + 2, t, w, false);
    lemma_wanted_pages(d4, path, p - 2, t, w, false);
    let generation = value_of(c1.generations, path).unwrap_or(0);
    let keep = worth_keeping(path, generation, w, pdf1.page);
    assert forall|i: int| 0 <= i < b.cache.pages.len() implies picture_fits(
        (#[trigger] b.cache.pages[i]).1.image,
        w,
        h,
        shows_whole_pages(app),
    ) by {
        assert(c.pages.filter(keep)[i] == b.cache.pages[i]);
        lemma_filtered_from(c.pages, keep, i);
        let j = choose|j: int| 0 <= j < c.pages.len() && c.pages[j] == b.cache.pages[i];
        assert(picture_fits(c.pages[j].1.image, w, h, shows_whole_pages(app)));
    }
}

/// Makes a picture of the document that is open, in a part of the screen.
pub fn draw_pdf_viewer_in(
    g: &mut PageCache,
    app: &mut App,
    area: Area,
    graphics: Option<Graphics>,
    step: Option<u32>,
) -> (r: Drawing)
    requires
        in_bounds(old(g).target),
        in_bounds(old(g).current),
        step matches Some(f) ==> f <= 1_000_000,
        area.x + area.width <= 0xffff,
        area.y + area.height <= 0xffff,
        graphics matches Some(gr) ==> pages_fit(
            old(g)@,
            area,
            gr,
            shows_whole_pages(*old(app)),
        ),
    ensures
        drawn_well(old(g)@, *old(app), final(g)@, *final(app), area, None, graphics, step, r),
{
    draw_pdf_viewer_in_with_occlusion(g, app, area, None, graphics, step)
}

// ---------------------------------------------------------------------------
// Texts
// ---------------------------------------------------------------------------

/// Dots that come and go while something is loading.
pub open spec fn dots(millis: u32) -> Seq<char> {
    match millis / 250 % 4 {
        0 => "   "@,
        1 => ".  "@,
        2 => ".. "@,
        _ => "..."@,
    }
}

/// What is shown while a page is drawn. `millis` are the milliseconds of the second.
pub fn loading_text(page: usize, millis: u32) -> (r: String)
    ensures
        r@ == "Rendering page "@ + decimal(page as nat) + dots(millis) + "  (press Esc to cancel)"@,
{
    let mut r = concat("Rendering page ", to_decimal(page as u64).as_str());
    let d = match millis / 250 % 4 {
        0 => "   ",
        1 => ".  ",
        2 => ".. ",
        _ => "...",
    };
    push_text(&mut r, d);
    push_text(&mut r, "  (press Esc to cancel)");
    r
}

/// The parts of the line below a page: the name of the file, the page, and how far
/// it is scrolled.
pub fn status_parts(path: &str, page: usize, total: usize, scroll: u32, max_scroll: u32) -> (r: (
    String,
    String,
    String,
))
    ensures
        r.0@ == " "@ + name_shown(path@) + " "@,
        r.1@ == " │ "@ + decimal(page as nat) + "/"@ + decimal(total as nat) + " "@,
        r.2@ == " │ "@ + decimal(scroll as nat) + "/"@ + decimal(max_scroll as nat) + " rows "@,
{
    let mut name = concat(" ", shown_name(path).as_str());
    push_text(&mut name, " ");
    let mut place = concat(" │ ", to_decimal(page as u64).as_str());
    push_text(&mut place, "/");
    push_text(&mut place, to_decimal(total as u64).as_str());
    push_text(&mut place, " ");
    let mut rows = concat(" │ ", to_decimal(scroll as u64).as_str());
    push_text(&mut rows, "/");
    push_text(&mut rows, to_decimal(max_scroll as u64).as_str());
    push_text(&mut rows, " rows ");
    (name, place, rows)
}

/// Row `y` of the picture of a page is the row of the page that far below where it is
/// scrolled to. Behind the end of the page the next one goes on, where it is there and
/// there is one; else the colour behind the pages stands there.
pub proof fn lemma_picture_goes_on_behind_the_page(
    page: Image,
    next: Option<Image>,
    last: bool,
    from: u32,
    w: u32,
    h: u32,
    y: int,
    x: int,
)
    requires
        page.data.len() == page.width * 4 * page.height,
        page.width > 0 && page.height > 0,
        next matches Some(n) ==> n.data.len() == n.width * 4 * n.height && n.width == page.width,
        from <= page.height,
        0 <= y < h,
        0 <= x < page.width * 4,
    ensures
        ({
            let row = page.width * 4;
            let shown = picture(page, next, last, from, w, h, false);
            &&& shown.width == page.width && shown.height == h
            &&& from + y < page.height ==> shown.data[y * row + x] == page.data[(from + y) * row + x]
            &&& from + y >= page.height && !last && next is Some && from + y - page.height
                < next->0.height ==> shown.data[y * row + x] == next->0.data[(from + y - page.height)
                * row + x]
            &&& from + y >= page.height && (last || next is None) ==> shown.data[y * row + x] == (
            if x % 4 == 3 {
                255u8
            } else {
                20u8
            })
        }),
{
    let row = page.width * 4;
    if from + h > page.height {
        if next is Some && !last {
            crate::raster::lemma_pages_follow_each_other(page, next->0, from, h, y, x);
        } else {
            crate::raster::lemma_page_is_padded(page, from, h, y, x);
        }
    } else {
        let i = y * row + x;
        let bottom = page.height as int;
        assert(0 <= i < row * h && from * row + i == (from + y) * row + x && (from + y) * row + x
            < row * bottom) by (nonlinear_arith)
            requires
                i == y * row + x,
                0 <= y,
                y + 1 <= h,
                from + h <= bottom,
                0 <= x < row,
                from >= 0,
        ;
    }
}

/// Before a picture is made, the pages of the document that lie within two of the one
/// that is shown stay, as far as they were drawn for its width, and those of other
/// documents. Of the document nothing else stays.
pub proof fn lemma_pages_nearby_stay(
    c: CacheModel,
    path: PathKey,
    page: usize,
    width: u32,
    height_px: u32,
    e: (PathKey, RenderedPage),
)
    requires
        c.pages.contains(e),
    ensures
        ({
            let d = prepared(c, path, page, width, height_px);
            let generation = value_of(c.generations, path).unwrap_or(0);
            let near = e.1.id.page <= page + 2 && page <= e.1.id.page + 2;
            &&& e.0 != path ==> d.pages.contains(e)
            &&& e.0 == path ==> (d.pages.contains(e) <==> near && e.1.id.width == width
                && e.1.id.generation == generation)
            &&& d.viewport_h == height_px
            &&& value_of(d.widths, path) == Some(width)
            &&& d.target == c.target && d.current == c.current
        }),
{
    broadcast use vstd::seq_lib::group_filter_ensures;

    let generation = value_of(c.generations, path).unwrap_or(0);
    let keep = worth_keeping(path, generation, width, page);
    let w = c.pages.filter(keep);
    assert(keep(e) ==> w.contains(e));
    if w.contains(e) {
        let j = choose|j: int| 0 <= j < w.len() && w[j] == e;
        assert(keep(w[j]));
    }
    crate::pdf_cache::lemma_with_value(c.widths, path, width);
}

/// A picture is encoded when another part of the document is shown than last, under an
/// identifier of its own, and takes the place of the image of the document that the
/// terminal holds. The same part is not encoded again.
pub proof fn lemma_only_new_parts_are_encoded(
    c: CacheModel,
    f: Frame,
    area: Area,
    occlusion: Option<Area>,
)
    requires
        c.next_id > 0,
    ensures
        ({
            let (d, _) = frame_finished(c, f, area, occlusion, true);
            let same = c.encoded is Some && c.crop is Some && c.crop->0.path == f.path
                && c.crop->0.page == f.page && c.crop->0.pixel_w == f.w && c.crop->0.crop_h == f.h
                && c.crop->0.crop_y == scroll_px(c, f) && c.crop->0.page_fit == f.page_fit
                && c.crop->0.dpi == 150;
            &&& same ==> d.next_id == c.next_id && d.resident == c.resident && d.crop == c.crop
                && d.encoded is Some && d.encoded->0.image_id == c.encoded->0.image_id
            &&& !same ==> {
                &&& d.encoded is Some && d.encoded->0.image_id == c.next_id
                &&& d.resident == Some((f.path, c.next_id))
                &&& d.next_id != c.next_id && d.next_id > 0
                &&& d.encoded->0.cols == area.width && d.encoded->0.rows == area.height
                &&& d.crop is Some && d.crop->0.page == f.page && d.crop->0.crop_y == scroll_px(c, f)
            }
            &&& d.pages == c.pages && d.current == c.current && d.target == c.target
        }),
{
    if c.crop is Some {
        let k = c.crop->0;
        let n = crop_of(c, f);
        if k.path == n.path && k.page == n.page && k.dpi == n.dpi && k.pixel_w == n.pixel_w
            && k.crop_y == n.crop_y && k.crop_h == n.crop_h && k.page_fit == n.page_fit {
            assert(k == n);
        }
    }
}

/// An image that is replaced leaves the terminal together with its successor, and not
/// that of another document.
pub proof fn lemma_replaced_image_leaves(
    c: CacheModel,
    path: PathKey,
    key: CropView,
    cols: u16,
    rows: u16,
    upload: Seq<char>,
    old_id: u32,
    other: PathKey,
)
    requires
        other != path,
    ensures
        c.resident == Some((path, old_id)) ==> frame_stored(
            c,
            path,
            key,
            cols,
            rows,
            upload,
        ).encoded->0.retire_image_id == Some(old_id),
        c.resident == Some((other, old_id)) ==> frame_stored(
            c,
            path,
            key,
            cols,
            rows,
            upload,
        ).encoded->0.retire_image_id is None,
        frame_stored(c, path, key, cols, rows, upload).encoded->0.transmit_seq == upload,
{
}

/// A page is shown from the pixel that it is scrolled to, and not from behind its end.
/// Whole pages are not scrolled.
pub proof fn lemma_scrolled_pixels(c: CacheModel, f: Frame)
    ensures
        scroll_px(c, f) <= f.image.height,
        f.page_fit ==> scroll_px(c, f) == 0,
        !f.page_fit && 0 <= c.current.scroll < 1000 * f.image.height ==> 1000 * scroll_px(c, f)
            <= c.current.scroll < 1000 * (scroll_px(c, f) + 1),
        !f.page_fit && f.image.height > f.h && f.font_h > 0 ==> max_scroll_rows(f) * f.font_h
            <= f.image.height - f.h < (max_scroll_rows(f) + 1) * f.font_h,
        f.image.height <= f.h && f.font_h > 0 ==> max_scroll_rows(f) == 0,
{
    if f.font_h > 0 {
        let a = f.image.height - f.h;
        let b = f.font_h as int;
        if a > 0 {
            assert(a / b * b <= a < (a / b + 1) * b) by (nonlinear_arith)
                requires
                    a > 0,
                    b > 0,
            ;
        } else {
            assert(0int / b == 0) by (nonlinear_arith)
                requires
                    b > 0,
            ;
        }
    }
}

/// What a picture comes to: that there is no document, no way to show images, no room, or
/// that the page is not drawn yet; else the page that the picture has moved on to is
/// ready.
pub proof fn lemma_picture_comes_to(
    c: CacheModel,
    app: App,
    area: Area,
    graphics: Option<Graphics>,
    step: Option<u32>,
)
    ensures
        ({
            let b = begun(c, app, area, graphics, step);
            &&& b.outcome == Outcome::NoDocument <==> app.pdf.path is None
            &&& app.pdf.path is Some && graphics is None ==> b.outcome == Outcome::NoGraphics
            &&& app.pdf.path is Some && graphics is Some && (area.width * graphics->0.font_w == 0
                || area.height * graphics->0.font_h == 0) ==> b.outcome == Outcome::NoRoom
            &&& b.outcome == Outcome::Ready ==> app.pdf.path is Some && graphics is Some && exists|
                i: int,
            |
                0 <= i < b.cache.pages.len() && (#[trigger] b.cache.pages[i]).0 == path_key(
                    app.pdf.path->0@,
                ) && b.cache.pages[i].1.id.page == b.pdf.page
            &&& b.outcome == Outcome::Loading || b.outcome == Outcome::Ready ==> b.pdf.page
                == b.cache.current.page
            &&& b.question is Some ==> count_step(c, path_key(app.pdf.path->0@)) is Query
        }),
{
    if app.pdf.path is Some && graphics is Some {
        let path = path_key(app.pdf.path->0@);
        let g = graphics->0;
        let aw = area.width as int;
        let ah = area.height as int;
        let fw = g.font_w as int;
        let fh = g.font_h as int;
        assert(0 <= aw * fw <= 0xffff * 0xffff && 0 <= ah * fh <= 0xffff * 0xffff)
            by (nonlinear_arith)
            requires
                0 <= aw <= 0xffff,
                0 <= ah <= 0xffff,
                0 <= fw <= 0xffff,
                0 <= fh <= 0xffff,
        ;
        let w = (area.width * g.font_w) as u32;
        let h = (area.height * g.font_h) as u32;
        if w != 0 && h != 0 {
            let known = count_step(c, path);
            let pdf1 = with_count(app.pdf, known);
            let c2 = prepared(count_asked(c, path), path, pdf1.page, w, h);
            let c3 = moved_on(
                c2,
                pdf1.total_pages as int,
                h * 1500,
                shows_whole_pages(app),
                step,
            );
            lemma_wanted_keeps(c3, path, c3.current.page as int, pdf1.total_pages, w);
        }
    }
}

proof fn lemma_wanted_keeps(c: CacheModel, path: PathKey, page: int, total: usize, width: u32)
    ensures
        neighbours_wanted(c, path, page, total, width).pages == c.pages,
        neighbours_wanted(c, path, page, total, width).current == c.current,
{
}

/// Drawing shows nothing unless the page is ready. It then tells how far the page can be
/// scrolled, and leaves the rest of the program as it is.
pub proof fn lemma_drawing_tells_of_the_page(
    c: CacheModel,
    app: App,
    after: CacheModel,
    app_after: App,
    area: Area,
    occlusion: Option<Area>,
    graphics: Option<Graphics>,
    step: Option<u32>,
    r: Drawing,
)
    requires
        drawn_well(c, app, after, app_after, area, occlusion, graphics, step, r),
    ensures
        app.pdf.path is None ==> after == c && app_after == app && r.outcome
            == Outcome::NoDocument,
        r.outcome != Outcome::Ready ==> r.content@ == ContentView::Nothing,
        app_after == (App { pdf: app_after.pdf, ..app }),
        app_after.pdf.path == app.pdf.path,
        r.outcome == Outcome::Ready ==> {
            let b = begun(c, app, area, graphics, step);
            let f = frame_of(
                b.cache,
                App { pdf: b.pdf, ..app },
                path_key(app.pdf.path->0@),
                area,
                graphics->0,
            );
            &&& app_after.pdf.page_pixel_h == f.image.height
            &&& app_after.pdf.page == b.pdf.page
            &&& f.image.height <= f.h && f.font_h > 0 ==> app_after.pdf.max_scroll_y == 0
        },
{
    if r.outcome == Outcome::Ready {
        let b = begun(c, app, area, graphics, step);
        let f = frame_of(
            b.cache,
            App { pdf: b.pdf, ..app },
            path_key(app.pdf.path->0@),
            area,
            graphics->0,
        );
        lemma_scrolled_pixels(b.cache, f);
    }
}

} // verus!
