//! Images of pages, and the parts of them that are shown.

use crate::text::{max, min};
use vstd::prelude::*;

verus! {

/// An image of four bytes per pixel, row by row.
#[derive(Debug)]
pub struct Raster {
    pub width: u32,
    pub height: u32,
    pub data: Vec<u8>,
}

/// An image of four bytes per pixel, row by row.
#[verifier::ext_equal]
pub struct Image {
    pub width: u32,
    pub height: u32,
    pub data: Seq<u8>,
}

impl View for Raster {
    type V = Image;

    open spec fn view(&self) -> Image {
        Image { width: self.width, height: self.height, data: self.data@ }
    }
}

impl Raster {
    /// Whether there are four bytes for each pixel.
    pub open spec fn wf(self) -> bool {
        self.data@.len() == row_bytes(self.width) * self.height
    }
}

/// Number of bytes of a row.
pub open spec fn row_bytes(width: u32) -> int {
    width * 4
}

/// An image whose bytes are all zero.
pub open spec fn blank(width: u32, height: u32) -> Image {
    Image {
        width,
        height,
        data: Seq::new((row_bytes(width) * height) as nat, |i: int| 0u8),
    }
}

/// The same, at least one pixel wide and high.
pub open spec fn blank_at_least(width: u32, height: u32) -> Image {
    blank(max(width as int, 1) as u32, max(height as int, 1) as u32)
}

/// Whether the bytes of an image of that size can be counted.
pub open spec fn size_fits(width: u32, height: u32) -> bool {
    &&& max(width as int, 1) * max(height as int, 1) * 4 <= u32::MAX
}

/// The rows of an image from `from` on, as far as there are any; zeros behind them.
pub open spec fn rows_shown(src: Image, from: u32, height: u32) -> Image {
    let row = row_bytes(src.width);
    Image {
        width: src.width,
        height,
        data: Seq::new(
            (row * height) as nat,
            |i: int|
                if from * row + i < src.data.len() {
                    src.data[from * row + i]
                } else {
                    0u8
                },
        ),
    }
}

/// Number of rows of an image from `from` on.
pub open spec fn rows_left(src: Image, from: u32) -> int {
    max(src.height - from, 0)
}

/// The rows of an image from `from` on, and behind them the first rows of the next
/// one where that is as wide; zeros behind them.
pub open spec fn rows_stitched(cur: Image, next: Image, from: u32, height: u32) -> Image {
    let row = row_bytes(cur.width);
    let own = rows_left(cur, from) * row;
    Image {
        width: cur.width,
        height,
        data: Seq::new(
            (row * height) as nat,
            |i: int|
                if i < own {
                    cur.data[from * row + i]
                } else if next.width == cur.width && i - own < next.data.len() {
                    next.data[i - own]
                } else {
                    0u8
                },
        ),
    }
}

/// A byte of the colour behind the pages.
pub open spec fn margin_byte(i: int) -> u8 {
    if i % 4 == 3 {
        255
    } else {
        20
    }
}

/// The rows of an image from `from` on, and behind them the colour behind the pages.
pub open spec fn rows_padded(src: Image, from: u32, height: u32) -> Image {
    let row = row_bytes(src.width);
    let own = rows_left(src, from) * row;
    Image {
        width: src.width,
        height,
        data: Seq::new(
            (row * height) as nat,
            |i: int|
                if i < own {
                    src.data[from * row + i]
                } else {
                    margin_byte(i)
                },
        ),
    }
}

fn make_blank(width: u32, height: u32) -> (r: Raster)
    requires
        size_fits(width, height),
    ensures
        r@ == blank_at_least(width, height),
        r.wf(),
{
    let w: u32 = if width == 0 {
        1
    } else {
        width
    };
    let h: u32 = if height == 0 {
        1
    } else {
        height
    };
    proof {
        lemma_size(w, h);
    }
    let n: usize = (w * h * 4) as usize;
    let mut data: Vec<u8> = Vec::new();
    while data.len() < n
        invariant
            data@.len() <= n,
            forall|i: int| 0 <= i < data@.len() ==> data@[i] == 0,
        decreases n - data@.len(),
    {
        data.push(0);
    }
    let r = Raster { width: w, height: h, data };
    assert(r@ =~= blank_at_least(width, height));
    r
}

proof fn lemma_size(w: u32, h: u32)
    ensures
        row_bytes(w) * h == w * h * 4,
        w * h >= 0,
{
    assert(w * 4 * h == w * h * 4) by (nonlinear_arith);
    assert(w * h >= 0) by (nonlinear_arith)
        requires
            w >= 0,
            h >= 0,
    ;
}

/// Where row `from` of an image starts, and where its bytes end.
proof fn lemma_row(width: u32, height: u32, from: u32)
    requires
        from <= height,
    ensures
        0 <= from * row_bytes(width) <= row_bytes(width) * height,
        from * row_bytes(width) + (height - from) * row_bytes(width) == row_bytes(width) * height,
{
    let row = row_bytes(width);
    assert(0 <= from * row <= row * height) by (nonlinear_arith)
        requires
            0 <= from <= height,
            0 <= row,
    ;
    assert(from * row + (height - from) * row == row * height) by (nonlinear_arith);
}

/// Start of row `from`, or the end where there is no such row.
fn row_start(src: &Raster, from: u32) -> (r: usize)
    requires
        src.wf(),
    ensures
        r == (if from < src.height {
            from * row_bytes(src.width)
        } else {
            src.data@.len() as int
        }),
        r <= src.data@.len(),
{
    if from < src.height {
        proof {
            lemma_row(src.width, src.height, from);
            lemma_size(src.width, src.height);
        }
        let len: usize = src.data.len();
        assert(row_bytes(src.width) <= row_bytes(src.width) * src.height) by (nonlinear_arith)
            requires
                row_bytes(src.width) >= 0,
                src.height >= 1,
        ;
        assert(row_bytes(src.width) <= len);
        let row: usize = (src.width as u64 * 4) as usize;
        from as usize * row
    } else {
        src.data.len()
    }
}

/// The rows from `crop_y` on.
pub fn crop_view(src: &Raster, crop_y: u32, crop_h: u32) -> (r: Raster)
    requires
        src.wf(),
        size_fits(src.width, crop_h),
    ensures
        r.wf(),
        r@ == if src.width == 0 || src.height == 0 || crop_h == 0 {
            blank_at_least(src.width, crop_h)
        } else {
            rows_shown(src@, crop_y, crop_h)
        },
{
    let w: u32 = src.width;
    if w == 0 || src.height == 0 || crop_h == 0 {
        return make_blank(w, crop_h);
    }
    proof {
        lemma_size(w, crop_h);
    }
    let n: usize = (w * crop_h * 4) as usize;
    let start: usize = row_start(src, crop_y);
    let len: usize = src.data.len();
    let ghost at = crop_y * row_bytes(w);
    proof {
        if crop_y >= src.height {
            assert(at >= row_bytes(w) * src.height) by (nonlinear_arith)
                requires
                    at == crop_y * row_bytes(w),
                    crop_y >= src.height,
                    row_bytes(w) >= 0,
            ;
        }
    }
    let mut data: Vec<u8> = Vec::new();
    let mut i: usize = 0;
    while i < n
        invariant
            i <= n,
            data@.len() == i,
            len == src.data@.len(),
            start <= len,
            start == at || (start == len && at >= len),
            forall|j: int|
                0 <= j < i ==> #[trigger] data@[j] == (if at + j < len {
                    src.data@[at + j]
                } else {
                    0u8
                }),
        decreases n - i,
    {
        if i < len - start {
            data.push(src.data[start + i]);
        } else {
            data.push(0);
        }
        i = i + 1;
    }
    let r = Raster { width: w, height: crop_h, data };
    assert(r@ =~= rows_shown(src@, crop_y, crop_h));
    r
}

/// The rows from `scroll_y` on, and behind them those of the next page.
pub fn crop_and_stitch(curr_img: &Raster, next_img: &Raster, scroll_y: u32, viewport_h: u32) -> (r:
    Raster)
    requires
        curr_img.wf(),
        next_img.wf(),
        size_fits(curr_img.width, viewport_h),
    ensures
        r.wf(),
        r@ == if curr_img.width == 0 || viewport_h == 0 {
            blank_at_least(curr_img.width, viewport_h)
        } else {
            rows_stitched(curr_img@, next_img@, scroll_y, viewport_h)
        },
{
    let w: u32 = curr_img.width;
    if w == 0 || viewport_h == 0 {
        return make_blank(w, viewport_h);
    }
    proof {
        lemma_size(w, viewport_h);
    }
    let n: usize = (w * viewport_h * 4) as usize;
    let start: usize = row_start(curr_img, scroll_y);
    let len: usize = curr_img.data.len();
    let own: usize = len - start;
    let ghost at = scroll_y * row_bytes(w);
    proof {
        if scroll_y < curr_img.height {
            lemma_row(w, curr_img.height, scroll_y);
        }
        assert(own == rows_left(curr_img@, scroll_y) * row_bytes(w)) by {
            if scroll_y >= curr_img.height {
                assert(rows_left(curr_img@, scroll_y) == 0);
                assert(0 * row_bytes(w) == 0);
            } else {
                assert(rows_left(curr_img@, scroll_y) == curr_img.height - scroll_y);
            }
        }
    }
    let same: bool = next_img.width == w;
    let mut data: Vec<u8> = Vec::new();
    let mut i: usize = 0;
    while i < n
        invariant
            i <= n,
            data@.len() == i,
            len == curr_img.data@.len(),
            own == len - start,
            own > 0 ==> start == at,
            own >= 0,
            start <= curr_img.data@.len(),
            same == (next_img.width == w),
            forall|j: int|
                0 <= j < i ==> #[trigger] data@[j] == (if j < own {
                    curr_img.data@[at + j]
                } else if same && j - own < next_img.data@.len() {
                    next_img.data@[j - own]
                } else {
                    0u8
                }),
        decreases n - i,
    {
        if i < own {
            data.push(curr_img.data[start + i]);
        } else if same && i - own < next_img.data.len() {
            data.push(next_img.data[i - own]);
        } else {
            data.push(0);
        }
        i = i + 1;
    }
    let r = Raster { width: w, height: viewport_h, data };
    assert(r@ =~= rows_stitched(curr_img@, next_img@, scroll_y, viewport_h));
    r
}

/// The rows from `scroll_y` on, and behind them the colour behind the pages.
pub fn crop_single_with_padding(curr_img: &Raster, scroll_y: u32, viewport_h: u32) -> (r: Raster)
    requires
        curr_img.wf(),
        size_fits(curr_img.width, viewport_h),
    ensures
        r.wf(),
        r@ == if curr_img.width == 0 || viewport_h == 0 {
            blank_at_least(curr_img.width, viewport_h)
        } else {
            rows_padded(curr_img@, scroll_y, viewport_h)
        },
{
    let w: u32 = curr_img.width;
    if w == 0 || viewport_h == 0 {
        return make_blank(w, viewport_h);
    }
    proof {
        lemma_size(w, viewport_h);
    }
    let n: usize = (w * viewport_h * 4) as usize;
    let start: usize = row_start(curr_img, scroll_y);
    let len: usize = curr_img.data.len();
    let own: usize = len - start;
    let ghost at = scroll_y * row_bytes(w);
    proof {
        if scroll_y < curr_img.height {
            lemma_row(w, curr_img.height, scroll_y);
        }
        assert(own == rows_left(curr_img@, scroll_y) * row_bytes(w)) by {
            if scroll_y >= curr_img.height {
                assert(rows_left(curr_img@, scroll_y) == 0);
                assert(0 * row_bytes(w) == 0);
            } else {
                assert(rows_left(curr_img@, scroll_y) == curr_img.height - scroll_y);
            }
        }
    }
    let mut data: Vec<u8> = Vec::new();
    let mut i: usize = 0;
    while i < n
        invariant
            i <= n,
            data@.len() == i,
            len == curr_img.data@.len(),
            own == len - start,
            own > 0 ==> start == at,
            start <= curr_img.data@.len(),
            forall|j: int|
                0 <= j < i ==> #[trigger] data@[j] == (if j < own {
                    curr_img.data@[at + j]
                } else {
                    margin_byte(j)
                }),
        decreases n - i,
    {
        if i < own {
            data.push(curr_img.data[start + i]);
        } else if i % 4 == 3 {
            data.push(255);
        } else {
            data.push(20);
        }
        i = i + 1;
    }
    let r = Raster { width: w, height: viewport_h, data };
    assert(r@ =~= rows_padded(curr_img@, scroll_y, viewport_h));
    r
}

/// Where both have rows enough, the ways to show a page agree.
pub proof fn lemma_views_agree(src: Image, next: Image, from: u32, height: u32)
    requires
        src.data.len() == row_bytes(src.width) * src.height,
        from + height <= src.height,
    ensures
        rows_padded(src, from, height) == rows_shown(src, from, height),
        rows_stitched(src, next, from, height) == rows_shown(src, from, height),
{
    let row = row_bytes(src.width);
    let own = rows_left(src, from) * row;
    assert(row * height <= own) by (nonlinear_arith)
        requires
            own == (src.height - from) * row,
            from + height <= src.height,
            row >= 0,
    ;
    lemma_row(src.width, src.height, from);
    assert(rows_padded(src, from, height) =~= rows_shown(src, from, height));
    assert(rows_stitched(src, next, from, height) =~= rows_shown(src, from, height));
}

// ---------------------------------------------------------------------------
// Scaling
// ---------------------------------------------------------------------------

/// Height of an image that is scaled to a width, rounded up.
pub open spec fn scaled_to(img_w: u32, img_h: u32, pixel_w: u32) -> int {
    max(min((img_h * pixel_w + img_w - 1) / (img_w as int), u32::MAX as int), 1)
}

/// Height of an image that is scaled to a width, rounded up.
pub fn scaled_height(img_w: u32, img_h: u32, pixel_w: u32) -> (r: u32)
    requires
        img_w > 0,
    ensures
        r == scaled_to(img_w, img_h, pixel_w),
{
    assert(img_h * pixel_w <= 0xffff_ffff * 0xffff_ffff) by (nonlinear_arith)
        requires
            img_h <= 0xffff_ffff,
            pixel_w <= 0xffff_ffff,
    ;
    assert(img_h * pixel_w >= 0) by (nonlinear_arith);
    let all: u64 = img_h as u64 * pixel_w as u64;
    let up: u64 = (all + (img_w as u64 - 1)) / (img_w as u64);
    if up > 0xffff_ffff {
        0xffff_ffff
    } else if up == 0 {
        1
    } else {
        up as u32
    }
}

/// What `DynamicImage::resize_exact` makes of the bytes of an image with the
/// triangle filter.
pub uninterp spec fn resized_of(
    width: u32,
    height: u32,
    data: Seq<u8>,
    new_width: u32,
    new_height: u32,
) -> Seq<u8>;

/// Sides from which on scaling is not called: behind it, half a pixel is lost when
/// the middle of a pixel is computed with 24 bits, and no pixel may be left to take
/// a colour from.
pub const SIDE_LIMIT: u32 = 0x40_0000;

/// Whether an image can be scaled: its sides and the new ones are short enough, and
/// the images that are made on the way can be held.
pub open spec fn scaling_fits(width: u32, height: u32, new_width: u32, new_height: u32) -> bool {
    &&& width < SIDE_LIMIT && height < SIDE_LIMIT
    &&& new_width < SIDE_LIMIT && new_height < SIDE_LIMIT
    &&& width * new_height * 16 <= isize::MAX
    &&& new_width * new_height * 4 <= isize::MAX
}

/// `image::DynamicImage::resize_exact` with `FilterType::Triangle`: the result has
/// the new size, and its bytes are a function of the image and of that size. It
/// panics where the weights that it computes with `f32` are all zero, which takes a
/// side of `SIDE_LIMIT` pixels or more.
#[verifier::external_body]
fn resize_exact(img: &Raster, new_width: u32, new_height: u32) -> (r: Raster)
    requires
        img.wf(),
        scaling_fits(img.width, img.height, new_width, new_height),
    ensures
        r.wf(),
        r.width == new_width,
        r.height == new_height,
        r.data@ == resized_of(img.width, img.height, img.data@, new_width, new_height),
{
    let buffer = image::RgbaImage::from_raw(img.width, img.height, img.data.clone());
    let whole = image::DynamicImage::ImageRgba8(buffer.unwrap_or_default());
    let scaled = whole.resize_exact(new_width, new_height, image::imageops::FilterType::Triangle);
    let rgba = scaled.into_rgba8();
    Raster { width: rgba.width(), height: rgba.height(), data: rgba.into_raw() }
}

/// The image of a page once it has the width of the screen, if it has any.
pub open spec fn page_scaled(img: Image, pixel_w: u32) -> Option<Image> {
    if img.width == 0 || pixel_w == 0 {
        None
    } else if img.width == pixel_w {
        Some(img)
    } else {
        let h = scaled_to(img.width, img.height, pixel_w) as u32;
        Some(
            Image {
                width: pixel_w,
                height: h,
                data: resized_of(img.width, img.height, img.data, pixel_w, h),
            },
        )
    }
}

/// Scales the image of a page to the width of the screen. An image or a screen
/// without width is an error.
pub fn scale_page(img: Raster, pixel_w: u32) -> (r: Result<Raster, String>)
    requires
        img.wf(),
        img.width > 0 && pixel_w > 0 && img.width != pixel_w ==> scaling_fits(
            img.width,
            img.height,
            pixel_w,
            scaled_to(img.width, img.height, pixel_w) as u32,
        ),
    ensures
        match r {
            Ok(page) => page.wf() && page_scaled(img@, pixel_w) == Some(page@),
            Err(e) => page_scaled(img@, pixel_w) is None && e@ == "zero-width image"@,
        },
{
    if img.width == 0 || pixel_w == 0 {
        return Err("zero-width image".to_owned());
    }
    if img.width == pixel_w {
        return Ok(img);
    }
    let h: u32 = scaled_height(img.width, img.height, pixel_w);
    Ok(resize_exact(&img, pixel_w, h))
}

/// What `DynamicImage::resize` makes of an image with the triangle filter: its
/// width, its height and its bytes.
pub uninterp spec fn fitted_of(
    width: u32,
    height: u32,
    data: Seq<u8>,
    within_width: u32,
    within_height: u32,
) -> (u32, u32, Seq<u8>);

/// `image::DynamicImage::resize` with `FilterType::Triangle`: the result is a
/// function of the image and of the size that it has to fit in. How the size is
/// rounded is left open. It scales as `resize_exact` does.
#[verifier::external_body]
fn resize_within(img: &Raster, within_width: u32, within_height: u32) -> (r: Raster)
    requires
        img.wf(),
        within_width > 0,
        within_height > 0,
        scaling_fits(img.width, img.height, within_width, within_height),
    ensures
        r.wf(),
        (r.width, r.height, r.data@) == fitted_of(
            img.width,
            img.height,
            img.data@,
            within_width,
            within_height,
        ),
{
    let buffer = image::RgbaImage::from_raw(img.width, img.height, img.data.clone());
    let whole = image::DynamicImage::ImageRgba8(buffer.unwrap_or_default());
    let scaled = whole.resize(within_width, within_height, image::imageops::FilterType::Triangle);
    let rgba = scaled.into_rgba8();
    Raster { width: rgba.width(), height: rgba.height(), data: rgba.into_raw() }
}

/// What `imageops::overlay` makes of the bytes of an image, with another one on top
/// of it at a place.
pub uninterp spec fn overlaid_of(
    width: u32,
    height: u32,
    data: Seq<u8>,
    top_width: u32,
    top_height: u32,
    top: Seq<u8>,
    x: i64,
    y: i64,
) -> Seq<u8>;

/// `image::imageops::overlay`: the size stays, and the bytes are a function of the
/// two images and of the place.
#[verifier::external_body]
fn overlay(canvas: Raster, top: &Raster, x: i64, y: i64) -> (r: Raster)
    requires
        canvas.wf(),
        top.wf(),
    ensures
        r.wf(),
        r.width == canvas.width,
        r.height == canvas.height,
        r.data@ == overlaid_of(
            canvas.width,
            canvas.height,
            canvas.data@,
            top.width,
            top.height,
            top.data@,
            x,
            y,
        ),
{
    let bottom = image::RgbaImage::from_raw(canvas.width, canvas.height, canvas.data);
    let mut bottom = bottom.unwrap_or_default();
    let above = image::RgbaImage::from_raw(top.width, top.height, top.data.clone());
    image::imageops::overlay(&mut bottom, &above.unwrap_or_default(), x, y);
    Raster { width: bottom.width(), height: bottom.height(), data: bottom.into_raw() }
}

/// A white image.
pub open spec fn white(width: u32, height: u32) -> Image {
    Image {
        width,
        height,
        data: Seq::new((row_bytes(width) * height) as nat, |i: int| 255u8),
    }
}

fn make_white(width: u32, height: u32) -> (r: Raster)
    requires
        width * height * 4 <= isize::MAX,
    ensures
        r.wf(),
        r@ == white(width, height),
{
    proof {
        lemma_size(width, height);
    }
    let n: usize = width as usize * height as usize * 4;
    let mut data: Vec<u8> = Vec::new();
    while data.len() < n
        invariant
            data@.len() <= n,
            forall|i: int| 0 <= i < data@.len() ==> data@[i] == 255,
        decreases n - data@.len(),
    {
        data.push(255);
    }
    let r = Raster { width, height, data };
    assert(r@ =~= white(width, height));
    r
}

/// A scaled image in the middle of a white one of the size of the screen.
pub open spec fn centred(scaled: (u32, u32, Seq<u8>), viewport_w: u32, viewport_h: u32) -> Image {
    let canvas = white(viewport_w, viewport_h);
    Image {
        width: viewport_w,
        height: viewport_h,
        data: overlaid_of(
            canvas.width,
            canvas.height,
            canvas.data,
            scaled.0,
            scaled.1,
            scaled.2,
            (max(viewport_w - scaled.0, 0) / 2) as i64,
            (max(viewport_h - scaled.1, 0) / 2) as i64,
        ),
    }
}

/// A whole page, scaled to fit the screen, in the middle of it.
pub open spec fn page_fitted(page: Image, viewport_w: u32, viewport_h: u32) -> Image {
    centred(
        fitted_of(page.width, page.height, page.data, viewport_w, viewport_h),
        viewport_w,
        viewport_h,
    )
}

/// Puts a scaled image in the middle of a white one of the size of the screen.
pub fn centre(scaled: &Raster, viewport_w: u32, viewport_h: u32) -> (r: Raster)
    requires
        scaled.wf(),
        viewport_w * viewport_h * 4 <= isize::MAX,
    ensures
        r.wf(),
        r@ == centred((scaled.width, scaled.height, scaled.data@), viewport_w, viewport_h),
{
    let canvas = make_white(viewport_w, viewport_h);
    let x: i64 = (viewport_w.saturating_sub(scaled.width) / 2) as i64;
    let y: i64 = (viewport_h.saturating_sub(scaled.height) / 2) as i64;
    overlay(canvas, scaled, x, y)
}

/// Scales a whole page to fit the screen, and puts it in the middle.
pub fn fit_page_to_viewport(page: &Raster, viewport_w: u32, viewport_h: u32) -> (r: Raster)
    requires
        page.wf(),
        viewport_w > 0,
        viewport_h > 0,
        scaling_fits(page.width, page.height, viewport_w, viewport_h),
    ensures
        r.wf(),
        r@ == page_fitted(page@, viewport_w, viewport_h),
{
    let scaled = resize_within(page, viewport_w, viewport_h);
    centre(&scaled, viewport_w, viewport_h)
}

/// The picture of a page and the next one shows, in its row `y`, the row of the page that
/// many rows below where it is scrolled to and, behind the end of the page, the rows of
/// the next one from its top.
pub proof fn lemma_pages_follow_each_other(
    cur: Image,
    next: Image,
    from: u32,
    height: u32,
    y: int,
    x: int,
)
    requires
        cur.data.len() == cur.width * 4 * cur.height,
        next.data.len() == next.width * 4 * next.height,
        next.width == cur.width,
        from <= cur.height,
        0 <= y < height,
        0 <= x < cur.width * 4,
    ensures
        ({
            let row = cur.width * 4;
            let shown = rows_stitched(cur, next, from, height);
            &&& shown.width == cur.width && shown.height == height
            &&& shown.data.len() == row * height
            &&& shown.data[y * row + x] == (if from + y < cur.height {
                cur.data[(from + y) * row + x]
            } else if from + y - cur.height < next.height {
                next.data[(from + y - cur.height) * row + x]
            } else {
                0
            })
        }),
{
    let row = cur.width * 4;
    let own = (cur.height - from) * row;
    let i = y * row + x;
    assert(0 <= i < row * height) by (nonlinear_arith)
        requires
            i == y * row + x,
            0 <= y,
            y + 1 <= height,
            0 <= x < row,
    ;
    assert(row * height >= 0) by (nonlinear_arith)
        requires
            row >= 0,
            height >= 0,
    ;
    let d = cur.height - from;
    if from + y < cur.height {
        assert(i < own && from * row + i == (from + y) * row + x) by (nonlinear_arith)
            requires
                i == y * row + x,
                own == d * row,
                y + 1 <= d,
                0 <= x < row,
        ;
    } else {
        let z = y - d;
        assert(i >= own && i - own == z * row + x) by (nonlinear_arith)
            requires
                i == y * row + x,
                own == d * row,
                z == y - d,
                z >= 0,
                0 <= x < row,
        ;
        assert((z < next.height ==> i - own < row * next.height) && (z >= next.height ==> i - own
            >= row * next.height)) by (nonlinear_arith)
            requires
                i - own == z * row + x,
                0 <= x < row,
                z >= 0,
        ;
        assert(z == from + y - cur.height);
    }
}

/// The same of a page alone: behind its end stands the colour behind the pages.
pub proof fn lemma_page_is_padded(src: Image, from: u32, height: u32, y: int, x: int)
    requires
        src.data.len() == src.width * 4 * src.height,
        from <= src.height,
        0 <= y < height,
        0 <= x < src.width * 4,
    ensures
        ({
            let row = src.width * 4;
            let shown = rows_padded(src, from, height);
            &&& shown.width == src.width && shown.height == height
            &&& shown.data[y * row + x] == (if from + y < src.height {
                src.data[(from + y) * row + x]
            } else if x % 4 == 3 {
                255
            } else {
                20
            })
        }),
{
    let row = src.width * 4;
    let own = (src.height - from) * row;
    let i = y * row + x;
    let d = src.height - from;
    assert(0 <= i < row * height) by (nonlinear_arith)
        requires
            i == y * row + x,
            0 <= y,
            y + 1 <= height,
            0 <= x < row,
    ;
    if from + y < src.height {
        assert(i < own && from * row + i == (from + y) * row + x) by (nonlinear_arith)
            requires
                i == y * row + x,
                own == d * row,
                y + 1 <= d,
                0 <= x < row,
        ;
    } else {
        assert(i >= own) by (nonlinear_arith)
            requires
                i == y * row + x,
                own == d * row,
                y >= d,
                0 <= x,
                row >= 0,
        ;
        let q = y * src.width;
        assert(y * row == 4 * q) by (nonlinear_arith)
            requires
                row == src.width * 4,
                q == y * src.width,
        ;
        assert((4 * q + x) % 4 == x % 4);
    }
}

/// A page that is scaled to a width keeps its proportions: its height is the smallest
/// that is not too small for them, and at least one row.
pub proof fn lemma_scaling_keeps_proportions(img_w: u32, img_h: u32, pixel_w: u32)
    requires
        img_w > 0,
        img_h > 0,
        pixel_w > 0,
        img_h * pixel_w <= img_w * u32::MAX,
    ensures
        ({
            let h = scaled_to(img_w, img_h, pixel_w);
            &&& h >= 1
            &&& h * img_w >= img_h * pixel_w
            &&& (h - 1) * img_w < img_h * pixel_w
        }),
{
    let w = img_w as int;
    let a = img_h * pixel_w;
    assert(a > 0) by (nonlinear_arith)
        requires
            a == img_h * pixel_w,
            img_h > 0,
            pixel_w > 0,
    ;
    let q = (a + w - 1) / w;
    assert(q >= 1 && q * w >= a && (q - 1) * w < a && q <= u32::MAX) by (nonlinear_arith)
        requires
            q == (a + w - 1) / w,
            w > 0,
            a > 0,
            a <= w * u32::MAX,
    ;
}

} // verus!
