//! The viewer of documents and the protocol that it draws with.

use papr::kitty::{
    base64_encode_into, fully_covered, kitty_delete_image, kitty_transmit, kitty_transmit_raw,
    render_kitty_placeholders, upload_with, Area, CellWrite, EncodedFrame, KittyPayloadWriter,
};
use papr::model::App;
use papr::pdf_cache::{
    cleanup_temp_files, invalidate_document, is_current_page_cached, page_count, page_counted,
    pump_render_queue, release_document, render_finished, render_pending_kitty_cleanup,
    request_page, reset_for_new_document, CountStep, CropKey, Job, Owned, PageCache, PageCount,
    PageId, Position, RenderedPage, DPI,
};
use papr::pdf_viewer::{
    draw_pdf_viewer_in, draw_pdf_viewer_in_with_occlusion, is_animating, jump_to_page,
    loading_text, normalize_coords, page_down, page_up, scroll_by_rows, status_parts, Content,
    Graphics, Outcome,
};
use papr::raster::{
    centre, crop_and_stitch, crop_single_with_padding, crop_view, fit_page_to_viewport,
    scale_page, scaled_height, Raster,
};
use ratatui::buffer::Buffer;
use ratatui::layout::Rect;
use ratatui::widgets::{Clear, Paragraph, Widget};

fn apply(buffer: &mut Buffer, writes: Vec<CellWrite>) {
    for write in writes {
        match write {
            CellWrite::Skip { x, y } => {
                if let Some(cell) = buffer.cell_mut((x, y)) {
                    cell.set_skip(true);
                }
            }
            CellWrite::Symbol { x, y, text } => {
                if let Some(cell) = buffer.cell_mut((x, y)) {
                    cell.set_symbol(&text);
                }
            }
        }
    }
}

fn cells(area: Rect) -> Area {
    Area { x: area.x, y: area.y, width: area.width, height: area.height }
}

fn encoded(transmit_seq: &str, image_id: u32, cols: u16, rows: u16, retire: Option<u32>) -> EncodedFrame {
    EncodedFrame {
        transmit_seq: transmit_seq.to_owned(),
        image_id,
        cols,
        rows,
        id_color: String::new(),
        retire_image_id: retire,
    }
}

#[test]
fn emits_each_kitty_placeholder_row_from_one_buffer_cell() {
    let area = Rect::new(0, 0, 3, 2);
    let mut buffer = Buffer::empty(area);
    let frame = encoded("upload", 1, 3, 2, None);

    apply(&mut buffer, render_kitty_placeholders(cells(area), &frame, None));

    for y in 0..2 {
        let row = buffer[(0, y)].symbol();
        assert_eq!(row.matches('\u{10EEEE}').count(), 3);
        assert!(row.contains("\x1b[s"));
        assert!(row.contains("\x1b[u"));
        assert_eq!(buffer[(1, y)].symbol(), " ");
        assert_eq!(buffer[(2, y)].symbol(), " ");
    }
    assert!(buffer[(0, 0)].symbol().starts_with("upload"));
    assert!(!buffer[(0, 1)].symbol().contains("upload"));
}

#[test]
fn retires_the_previous_image_after_the_last_new_placeholder_row() {
    let area = Rect::new(0, 0, 2, 2);
    let mut buffer = Buffer::empty(area);
    let frame = encoded("", 2, 2, 2, Some(1));

    apply(&mut buffer, render_kitty_placeholders(cells(area), &frame, None));

    assert!(!buffer[(0, 0)].symbol().contains("a=d,d=I,i=1"));
    let final_row = buffer[(0, 1)].symbol();
    let positions = (final_row.rfind('\u{10EEEE}'), final_row.find("a=d,d=I,i=1"));
    assert!(matches!(positions, (Some(placeholder), Some(delete)) if delete > placeholder));
}

#[test]
fn base64_encoder_appends_without_an_intermediate_payload() {
    let mut output = "prefix:".to_owned();
    base64_encode_into(b"Papr PDF", &mut output);
    assert_eq!(output, "prefix:UGFwciBQREY=");
}

#[test]
fn kitty_rows_split_at_an_overlay_and_restore_after_it_closes() {
    let area = Rect::new(0, 0, 6, 2);
    let overlay = Rect::new(0, 0, 3, 2);
    let frame = encoded("upload", 7, 6, 2, None);
    let mut covered = Buffer::empty(area);

    apply(&mut covered, render_kitty_placeholders(cells(area), &frame, Some(cells(overlay))));

    for y in 0..2 {
        for x in 0..3 {
            assert!(!covered[(x, y)].skip);
            assert_eq!(covered[(x, y)].symbol(), " ");
        }
        assert!(!covered[(3, y)].skip);
        assert!(covered[(3, y)].symbol().contains('\u{10EEEE}'));
        assert!(covered[(4, y)].skip);
        assert!(covered[(5, y)].skip);
    }
    assert!(covered[(3, 0)].symbol().starts_with("upload"));

    let right_segment = covered[(3, 0)].symbol().to_owned();
    Clear.render(overlay, &mut covered);
    Paragraph::new("popup").render(overlay, &mut covered);
    assert_eq!(covered[(0, 0)].symbol(), "p");
    assert_eq!(covered[(3, 0)].symbol(), right_segment);

    Clear.render(overlay, &mut covered);
    Paragraph::new("update").render(overlay, &mut covered);
    assert_eq!(covered[(0, 0)].symbol(), "u");
    assert_eq!(covered[(3, 0)].symbol(), right_segment);

    let mut restored = Buffer::empty(area);
    apply(&mut restored, render_kitty_placeholders(cells(area), &frame, None));
    let updates = covered.diff(&restored);
    assert!(updates.iter().any(|(x, y, _)| (*x, *y) == (0, 0)));
    assert!(updates.iter().any(|(x, y, _)| (*x, *y) == (0, 1)));
}

fn filled(width: u32, height: u32, pixel: [u8; 4]) -> Raster {
    let mut data = Vec::new();
    for _ in 0..width * height {
        data.extend_from_slice(&pixel);
    }
    Raster { width, height, data }
}

#[test]
fn kitty_upload_uses_lossless_streaming_compression() {
    let image = filled(320, 200, [245, 245, 245, 255]);
    let upload = kitty_transmit(&image, 42);
    let raw = kitty_transmit_raw(&image.data, 42, 320, 200);

    assert!(upload.contains("f=32,t=d,s=320,v=200,o=z,"));
    assert!(upload.ends_with("\x1b\\"));
    assert!(upload.len() < raw.len());
}

#[test]
fn uploads_hold_the_zlib_stream_of_the_image() {
    let image = filled(320, 200, [245, 1, 245, 255]);
    let level = flate2::Compression::fast();
    let mut encoder = flate2::write::ZlibEncoder::new(Vec::new(), level);
    std::io::Write::write_all(&mut encoder, &image.data).unwrap();
    let packed = encoder.finish().unwrap();
    let mut bytes = Vec::new();
    let mut decoder = flate2::read::ZlibDecoder::new(packed.as_slice());
    std::io::Read::read_to_end(&mut decoder, &mut bytes).unwrap();
    assert_eq!(bytes, image.data);
    let upload = upload_with(&image.data, 42, 320, 200, Some(packed));
    assert_eq!(kitty_transmit(&image, 42), upload);
}

fn id(generation: u64, page: usize, width: u32) -> PageId {
    PageId { generation, page, dpi: DPI, width }
}

fn owned<T>(path: &str, item: T) -> Owned<T> {
    Owned { path: path.to_owned(), item }
}

fn crop(path: &str, page_fit: bool) -> CropKey {
    CropKey {
        path: path.to_owned(),
        page: 1,
        dpi: DPI,
        pixel_w: 1,
        crop_y: 0,
        crop_h: 1,
        page_fit,
    }
}

#[test]
fn releasing_a_document_removes_only_its_cache_and_invalidates_jobs() {
    let closed = "/tmp/papr-closed-document.pdf";
    let other = "/tmp/papr-other-document.pdf";
    let active = id(0, 2, 1);
    let mut cache = PageCache::new();
    for path in [closed, other] {
        let page = RenderedPage { id: id(0, 1, 1), image: filled(1, 1, [0, 0, 0, 0]) };
        cache.pages.push(owned(path, page));
        cache.page_count_in_flight.push(owned(path, 0));
        cache.temp_files.push(owned(path, format!("{path}.png")));
    }
    cache.page_counts.push(owned(closed, PageCount { generation: 0, count: 3 }));
    cache.page_counts.push(owned(other, PageCount { generation: 0, count: 4 }));
    cache.in_flight.push(owned(closed, active));
    cache.render_cancellations.push(owned(closed, active));
    cache.render_queue.push(owned(closed, Job { id: id(0, 3, 1), priority: false }));
    cache.last_crop_key = Some(crop(closed, false));
    cache.last_encoded = Some(encoded("", 77, 1, 1, None));
    cache.resident_kitty_image = Some(owned(closed, 77));

    let (stop, files) = release_document(&mut cache, closed);

    assert!(!cache.pages.iter().any(|page| page.path == closed));
    assert!(!cache.in_flight.iter().any(|page| page.path == closed));
    assert!(!cache.render_queue.iter().any(|job| job.path == closed));
    assert!(stop.iter().any(|page| page.path == closed && page.item == active));
    assert!(cache.pages.iter().any(|page| page.path == other));
    assert!(!cache.page_counts.iter().any(|count| count.path == closed));
    assert!(cache.page_counts.iter().any(|count| count.path == other));
    assert!(!cache.page_count_in_flight.iter().any(|count| count.path == closed));
    assert!(cache.page_count_in_flight.iter().any(|count| count.path == other));
    let generation = cache.document_generations.iter().find(|entry| entry.path == closed);
    assert_eq!(generation.map(|entry| entry.item), Some(1));
    assert!(cache.last_crop_key.is_none());
    assert!(cache.last_encoded.is_none());
    assert!(cache.pending_kitty_deletes.contains(&77));
    assert!(cache.resident_kitty_image.is_none());
    assert_eq!(files.len(), 1);
    assert_eq!(files[0].item, format!("{closed}.png"));
    assert!(cache.temp_files.iter().all(|file| file.path == other));

    let rebuilt = "/tmp/papr-rebuilt-document.pdf";
    cache.resident_kitty_image = Some(owned(rebuilt, 88));
    cache.last_crop_key = Some(crop(rebuilt, true));
    cache.last_encoded = Some(encoded("old upload", 88, 1, 1, None));
    invalidate_document(&mut cache, rebuilt);
    let resident = cache.resident_kitty_image.as_ref().unwrap();
    assert_eq!((resident.path.as_str(), resident.item), (rebuilt, 88));
    assert!(!cache.pending_kitty_deletes.contains(&88));
    assert!(cache.last_encoded.is_none());
    release_document(&mut cache, rebuilt);
    assert!(cache.pending_kitty_deletes.contains(&88));
}

#[test]
fn base64_pads_the_end() {
    for (bytes, text) in [
        (&b""[..], ""),
        (&b"f"[..], "Zg=="),
        (&b"fo"[..], "Zm8="),
        (&b"foo"[..], "Zm9v"),
        (&b"foob"[..], "Zm9vYg=="),
        (&[0xff, 0xfe, 0xfd][..], "//79"),
        (&[0xfb, 0xef, 0xbe][..], "++++"),
    ] {
        let mut out = String::new();
        base64_encode_into(bytes, &mut out);
        assert_eq!(out, text);
    }
}

#[test]
fn uploads_do_not_depend_on_how_the_bytes_come() {
    let data: Vec<u8> = (0..7000u32).map(|i| (i % 251) as u8).collect();
    let mut whole = KittyPayloadWriter::new(5, 10, 20);
    whole.write(&data);
    let mut parts = KittyPayloadWriter::new(5, 10, 20);
    for part in data.chunks(37) {
        parts.write(part);
    }
    let text = whole.finish();
    assert_eq!(text, parts.finish());
    assert_eq!(text.matches("\x1b_G").count(), 3);
    assert_eq!(text.matches("m=1;").count(), 2);
    assert_eq!(text.matches("m=0;").count(), 1);
    assert!(text.starts_with("\x1b_Gq=2,i=5,a=T,U=1,f=32,t=d,s=10,v=20,o=z,m=1;"));
}

#[test]
fn an_upload_of_one_piece_is_first_and_last() {
    assert_eq!(
        kitty_transmit_raw(b"foo", 1, 2, 3),
        "\x1b_Gq=2,i=1,a=T,U=1,f=32,t=d,s=2,v=3,m=0;Zm9v\x1b\\"
    );
    assert_eq!(
        upload_with(b"foo", 1, 2, 3, Some(b"f".to_vec())),
        "\x1b_Gq=2,i=1,a=T,U=1,f=32,t=d,s=2,v=3,o=z,m=0;Zg==\x1b\\"
    );
    assert_eq!(upload_with(b"foo", 1, 2, 3, None), kitty_transmit_raw(b"foo", 1, 2, 3));
    assert_eq!(kitty_transmit_raw(b"", 1, 2, 3), "");
    let whole = vec![7u8; 3072];
    assert!(kitty_transmit_raw(&whole, 1, 2, 3).contains("m=0;"));
}

#[test]
fn images_are_deleted_without_an_answer() {
    assert_eq!(kitty_delete_image(9), "\x1b_Gq=2,a=d,d=I,i=9\x1b\\");
    let mut cache = PageCache::new();
    assert_eq!(render_pending_kitty_cleanup(&mut cache), None);
    cache.pending_kitty_deletes = vec![1, 2];
    let expected = format!("{}{}", kitty_delete_image(1), kitty_delete_image(2));
    assert_eq!(render_pending_kitty_cleanup(&mut cache), Some(expected));
    assert_eq!(render_pending_kitty_cleanup(&mut cache), None);
}

#[test]
fn a_covered_area_is_seen_nowhere() {
    let area = Area { x: 2, y: 2, width: 4, height: 3 };
    assert!(!fully_covered(area, None));
    assert!(fully_covered(area, Some(area)));
    assert!(fully_covered(area, Some(Area { x: 0, y: 0, width: 10, height: 10 })));
    assert!(!fully_covered(area, Some(Area { x: 3, y: 2, width: 4, height: 3 })));
    assert_eq!(render_kitty_placeholders(area, &encoded("u", 1, 4, 3, Some(3)), Some(area)).len(), 0);
}

fn numbered(width: u32, height: u32, from: u8) -> Raster {
    let data = (0..width * height * 4).map(|i| from + (i / 4 / width) as u8).collect();
    Raster { width, height, data }
}

#[test]
fn rows_are_cropped_padded_and_stitched() {
    let page = numbered(2, 3, 10);
    let next = numbered(2, 3, 50);
    let view = crop_view(&page, 1, 2);
    assert_eq!((view.width, view.height), (2, 2));
    assert_eq!(view.data, [vec![11u8; 8], vec![12u8; 8]].concat());
    let padded = crop_single_with_padding(&page, 2, 2);
    assert_eq!(padded.data, [vec![12u8; 8], vec![20, 20, 20, 255, 20, 20, 20, 255]].concat());
    let stitched = crop_and_stitch(&page, &next, 2, 3);
    assert_eq!(stitched.data, [vec![12u8; 8], vec![50u8; 8], vec![51u8; 8]].concat());
    let narrow = numbered(1, 3, 50);
    let alone = crop_and_stitch(&page, &narrow, 2, 2);
    assert_eq!(alone.data, [vec![12u8; 8], vec![0u8; 8]].concat());
    let empty = crop_view(&Raster { width: 0, height: 0, data: vec![] }, 0, 0);
    assert_eq!((empty.width, empty.height, empty.data.len()), (1, 1, 4));
}

#[test]
fn pages_are_scaled_to_the_width_of_the_screen() {
    assert_eq!(scaled_height(100, 50, 200), 100);
    assert_eq!(scaled_height(3, 1, 1), 1);
    assert_eq!(scaled_height(3, 4, 2), 3);
    let same = scale_page(numbered(2, 3, 1), 2).unwrap();
    assert_eq!(same.data, numbered(2, 3, 1).data);
    let wide = scale_page(filled(2, 2, [9, 8, 7, 255]), 4).unwrap();
    assert_eq!((wide.width, wide.height, wide.data.len()), (4, 4, 64));
    assert_eq!(wide.data[..4], [9, 8, 7, 255]);
    assert_eq!(
        scale_page(Raster { width: 0, height: 2, data: vec![] }, 4).unwrap_err(),
        "zero-width image"
    );
    assert!(scale_page(numbered(2, 2, 1), 0).is_err());
}

#[test]
fn whole_pages_are_put_in_the_middle() {
    let fitted = fit_page_to_viewport(&filled(2, 4, [1, 2, 3, 255]), 8, 8);
    assert_eq!((fitted.width, fitted.height), (8, 8));
    assert_eq!(fitted.data[..4], [255, 255, 255, 255]);
    let middle = (4 * 8 + 4) * 4;
    assert_eq!(fitted.data[middle..middle + 4], [1, 2, 3, 255]);
    let placed = centre(&filled(2, 2, [5, 5, 5, 255]), 4, 4);
    assert_eq!(placed.data[..4], [255, 255, 255, 255]);
    let inside = (4 + 1) * 4;
    assert_eq!(placed.data[inside..inside + 4], [5, 5, 5, 255]);
}

fn with_pages(heights: &[u32]) -> PageCache {
    let mut cache = PageCache::new();
    for (i, height) in heights.iter().enumerate() {
        let page = RenderedPage { id: id(0, i + 1, 10), image: filled(10, *height, [3, 3, 3, 255]) };
        cache.pages.push(owned("/doc.pdf", page));
    }
    cache
}

#[test]
fn scrolling_stops_at_both_ends() {
    let mut cache = with_pages(&[100, 200, 300]);
    cache.last_viewport_h = 50;
    scroll_by_rows(&mut cache, 3, Some(10), 15);
    assert_eq!(cache.target, Position { page: 2, scroll: 50_000 });
    assert!(is_animating(&cache));
    scroll_by_rows(&mut cache, 3, Some(10), -6);
    assert_eq!(cache.target, Position { page: 1, scroll: 90_000 });
    scroll_by_rows(&mut cache, 3, None, i64::MIN);
    assert_eq!(cache.target, Position { page: 1, scroll: 0 });
    assert!(!is_animating(&cache));
    scroll_by_rows(&mut cache, 3, Some(10), i64::MAX);
    assert_eq!(cache.target, Position { page: 3, scroll: 250_000 });
    page_down(&mut cache, 3);
    assert_eq!(cache.target, Position { page: 3, scroll: 250_000 });
    page_up(&mut cache, 3);
    assert_eq!(cache.target, Position { page: 3, scroll: 205_000 });
}

#[test]
fn positions_name_the_page_that_they_lie_on() {
    let cache = with_pages(&[100, 200]);
    assert_eq!(normalize_coords(1, 150_000, 2, &cache.pages, 1_000_000), (2, 50_000));
    assert_eq!(normalize_coords(2, -30_000, 2, &cache.pages, 1_000_000), (1, 70_000));
    assert_eq!(normalize_coords(2, 900_000, 2, &cache.pages, 1_000_000), (2, 900_000));
    assert_eq!(normalize_coords(3, -1_000, 9, &cache.pages, 1_000_000), (2, 199_000));
    assert_eq!(normalize_coords(8, -1_000, 9, &cache.pages, 1_000_000), (7, 999_000));
}

#[test]
fn jumping_shows_a_page_at_once() {
    let mut cache = with_pages(&[100, 200, 300]);
    let mut app = App::default();
    app.pdf.total_pages = 3;
    jump_to_page(&mut cache, &mut app.pdf, 9);
    assert_eq!(cache.target, Position { page: 3, scroll: 0 });
    assert_eq!(cache.current, Position { page: 3, scroll: 0 });
    assert_eq!(app.pdf.page, 3);
    jump_to_page(&mut cache, &mut app.pdf, 0);
    assert_eq!(app.pdf.page, 1);
}

#[test]
fn the_number_of_pages_is_asked_for_once() {
    let mut cache = PageCache::new();
    assert_eq!(page_count(&mut cache, "/a.pdf"), CountStep::Query { generation: 0 });
    assert_eq!(page_count(&mut cache, "/a.pdf"), CountStep::Wait);
    page_counted(&mut cache, "/a.pdf", 0, 0);
    assert_eq!(page_count(&mut cache, "/a.pdf"), CountStep::Known(1));
    invalidate_document(&mut cache, "/a.pdf");
    assert_eq!(page_count(&mut cache, "/a.pdf"), CountStep::Query { generation: 1 });
    page_counted(&mut cache, "/a.pdf", 0, 7);
    assert_eq!(page_count(&mut cache, "/a.pdf"), CountStep::Wait);
}

#[test]
fn urgent_pages_are_drawn_first_and_only_two_at_a_time() {
    let mut cache = PageCache::new();
    request_page(&mut cache, "/a.pdf", 1, DPI, 10, false);
    request_page(&mut cache, "/a.pdf", 2, DPI, 10, false);
    request_page(&mut cache, "/a.pdf", 3, DPI, 10, true);
    request_page(&mut cache, "/a.pdf", 2, DPI, 10, true);
    let first = pump_render_queue(&mut cache).unwrap();
    assert_eq!(first.item.id.page, 2);
    let second = pump_render_queue(&mut cache).unwrap();
    assert_eq!(second.item.id.page, 3);
    assert!(pump_render_queue(&mut cache).is_none());
    cache.document_widths.push(owned("/a.pdf", 10));
    let image = filled(10, 4, [0, 0, 0, 255]);
    let file = Some("/tmp/p2.ppm".to_owned());
    assert!(!render_finished(&mut cache, "/a.pdf", first.item.id, Some(image), file));
    assert_eq!(cache.temp_files.len(), 1);
    // A page that nobody waits for does not join one that is being drawn.
    assert!(pump_render_queue(&mut cache).is_none());
    assert!(render_finished(&mut cache, "/a.pdf", second.item.id, None, None));
    assert_eq!(pump_render_queue(&mut cache).unwrap().item.id.page, 1);
    assert!(is_current_page_cached(&cache, &Some("/a.pdf".to_owned()), 2));
    assert!(!is_current_page_cached(&cache, &Some("/a.pdf".to_owned()), 3));
    assert!(is_current_page_cached(&cache, &None, 3));
    assert_eq!(cleanup_temp_files(&mut cache).len(), 1);
    assert_eq!(cleanup_temp_files(&mut cache).len(), 0);
}

#[test]
fn a_page_of_an_old_document_is_not_kept() {
    let mut cache = PageCache::new();
    cache.document_widths.push(owned("/a.pdf", 10));
    request_page(&mut cache, "/a.pdf", 1, DPI, 10, true);
    let job = pump_render_queue(&mut cache).unwrap();
    let stop = invalidate_document(&mut cache, "/a.pdf");
    assert_eq!(stop.len(), 1);
    let image = filled(10, 4, [0, 0, 0, 255]);
    assert!(render_finished(&mut cache, "/a.pdf", job.item.id, Some(image), None));
    assert!(cache.pages.is_empty());
}

#[test]
fn opening_a_document_drops_the_others() {
    let mut cache = with_pages(&[100]);
    cache.resident_kitty_image = Some(owned("/doc.pdf", 4));
    cache.target = Position { page: 5, scroll: 3 };
    let stop = reset_for_new_document(&mut cache, "/new.pdf");
    assert!(stop.is_empty());
    assert!(cache.pages.is_empty());
    assert_eq!(cache.pending_kitty_deletes, vec![4]);
    assert_eq!(cache.target, Position { page: 1, scroll: 0 });
    assert_eq!(cache.document_generations.len(), 1);
}

const SCREEN: Area = Area { x: 0, y: 0, width: 10, height: 5 };
const CELLS: Graphics = Graphics { font_w: 1, font_h: 10, kitty: true };

fn open_document() -> (PageCache, App) {
    let mut cache = with_pages(&[100, 200]);
    page_count(&mut cache, "/doc.pdf");
    page_counted(&mut cache, "/doc.pdf", 0, 2);
    let mut app = App::default();
    app.pdf.path = Some("/doc.pdf".to_owned());
    (cache, app)
}

#[test]
fn a_picture_is_uploaded_once() {
    let (mut cache, mut app) = open_document();
    let first = draw_pdf_viewer_in(&mut cache, &mut app, SCREEN, Some(CELLS), None);
    assert_eq!(first.outcome, Outcome::Ready);
    assert_eq!(first.question, None);
    assert_eq!(app.pdf.total_pages, 2);
    assert_eq!(app.pdf.page_pixel_h, 100);
    assert_eq!(app.pdf.max_scroll_y, 5);
    let Content::Placed(writes) = first.content else { panic!("expected a placed image") };
    let symbols: Vec<&String> = writes
        .iter()
        .filter_map(|write| match write {
            CellWrite::Symbol { text, .. } => Some(text),
            CellWrite::Skip { .. } => None,
        })
        .collect();
    assert_eq!(symbols.len(), 5);
    assert!(symbols[0].starts_with("\x1b_Gq=2,i=1,"));
    assert_eq!(cache.next_kitty_id, 2);
    let again = draw_pdf_viewer_in(&mut cache, &mut app, SCREEN, Some(CELLS), Some(500_000));
    let Content::Placed(writes) = again.content else { panic!("expected a placed image") };
    assert!(matches!(&writes[9], CellWrite::Symbol { text, .. } if text.starts_with("\x1b[s")));
    assert_eq!(cache.next_kitty_id, 2);
}

#[test]
fn a_covered_picture_keeps_its_upload() {
    let (mut cache, mut app) = open_document();
    let hidden = draw_pdf_viewer_in_with_occlusion(
        &mut cache, &mut app, SCREEN, Some(SCREEN), Some(CELLS), None,
    );
    assert!(matches!(hidden.content, Content::Placed(writes) if writes.is_empty()));
    assert!(!cache.last_encoded.as_ref().unwrap().transmit_seq.is_empty());
    let seen = draw_pdf_viewer_in(&mut cache, &mut app, SCREEN, Some(CELLS), None);
    assert!(matches!(seen.content, Content::Placed(writes) if writes.len() == 50));
    assert!(cache.last_encoded.as_ref().unwrap().transmit_seq.is_empty());
}

#[test]
fn pictures_move_towards_where_they_are_scrolled_to() {
    let (mut cache, mut app) = open_document();
    let _ = draw_pdf_viewer_in(&mut cache, &mut app, SCREEN, Some(CELLS), None);
    scroll_by_rows(&mut cache, 2, Some(10), 4);
    let _ = draw_pdf_viewer_in(&mut cache, &mut app, SCREEN, Some(CELLS), Some(250_000));
    assert_eq!(cache.current, Position { page: 1, scroll: 10_000 });
    assert_eq!(app.pdf.scroll_y, 1);
    assert_eq!(cache.last_crop_key.as_ref().unwrap().crop_y, 10);
    for _ in 0..40 {
        let _ = draw_pdf_viewer_in(&mut cache, &mut app, SCREEN, Some(CELLS), Some(500_000));
    }
    assert_eq!(cache.current, cache.target);
}

#[test]
fn what_stands_in_the_way_of_a_picture_is_told() {
    let mut cache = PageCache::new();
    let mut app = App::default();
    let none = draw_pdf_viewer_in(&mut cache, &mut app, SCREEN, Some(CELLS), None);
    assert_eq!(none.outcome, Outcome::NoDocument);
    app.pdf.path = Some("/doc.pdf".to_owned());
    let plain = draw_pdf_viewer_in(&mut cache, &mut app, SCREEN, None, None);
    assert_eq!((plain.outcome, plain.question), (Outcome::NoGraphics, Some(0)));
    let flat = Area { height: 0, ..SCREEN };
    let room = draw_pdf_viewer_in(&mut cache, &mut app, flat, Some(CELLS), None);
    assert_eq!(room.outcome, Outcome::NoRoom);
    let loading = draw_pdf_viewer_in(&mut cache, &mut app, SCREEN, Some(CELLS), None);
    assert_eq!(loading.outcome, Outcome::Loading);
    assert_eq!(pump_render_queue(&mut cache).unwrap().item.id, id(0, 1, 10));
}

fn queued_pages(page: usize, total: usize) -> Vec<(usize, bool)> {
    let mut cache = PageCache::new();
    page_count(&mut cache, "/doc.pdf");
    page_counted(&mut cache, "/doc.pdf", 0, total);
    let mut app = App::default();
    app.pdf.path = Some("/doc.pdf".to_owned());
    app.pdf.total_pages = total;
    jump_to_page(&mut cache, &mut app.pdf, page);
    let drawing = draw_pdf_viewer_in(&mut cache, &mut app, SCREEN, Some(CELLS), None);
    assert_eq!(drawing.outcome, Outcome::Loading);
    cache.render_queue.iter().map(|job| (job.item.id.page, job.item.priority)).collect()
}

#[test]
fn the_pages_around_the_one_that_is_shown_are_asked_for() {
    assert_eq!(
        queued_pages(5, 9),
        [(5, true), (6, false), (4, false), (7, false), (3, false)]
    );
    assert_eq!(queued_pages(1, 9), [(1, true), (2, false), (3, false)]);
    assert_eq!(queued_pages(2, 9), [(2, true), (3, false), (1, false), (4, false)]);
    assert_eq!(queued_pages(9, 9), [(9, true), (8, false), (7, false)]);
    assert_eq!(queued_pages(1, 1), [(1, true)]);
}

#[test]
fn documents_are_the_same_however_their_path_is_written() {
    let mut cache = with_pages(&[100]);
    request_page(&mut cache, "//doc.pdf", 1, DPI, 10, true);
    assert!(cache.render_queue.is_empty());
    assert_eq!(page_count(&mut cache, "/doc.pdf"), CountStep::Query { generation: 0 });
    assert_eq!(page_count(&mut cache, "/./doc.pdf"), CountStep::Wait);
    reset_for_new_document(&mut cache, "/doc.pdf/");
    assert_eq!(cache.pages.len(), 1);
    reset_for_new_document(&mut cache, "doc.pdf");
    assert!(cache.pages.is_empty());
}

#[test]
fn a_long_page_is_scrolled_but_not_scaled() {
    let height = papr::raster::SIDE_LIMIT;
    let page = filled(1, height, [7, 7, 7, 255]);
    let part = crop_view(&page, height - 2, 2);
    assert_eq!(part.data, vec![7, 7, 7, 255].repeat(2));
    let same = scale_page(page, 1).unwrap();
    assert_eq!((same.width, same.height), (1, height));
    let wide = scale_page(filled(papr::raster::SIDE_LIMIT - 1, 1, [9, 9, 9, 255]), 1).unwrap();
    assert_eq!((wide.width, wide.height, wide.data), (1, 1, vec![9, 9, 9, 255]));
    let long = scale_page(filled(3_145_727, 1, [9, 9, 9, 255]), papr::raster::SIDE_LIMIT - 2);
    assert_eq!(long.unwrap().data.last(), Some(&255));
}

#[test]
fn other_terminals_get_whole_images() {
    let (mut cache, mut app) = open_document();
    let graphics = Graphics { kitty: false, ..CELLS };
    let drawing = draw_pdf_viewer_in(&mut cache, &mut app, SCREEN, Some(graphics), None);
    let Content::Picture(image) = drawing.content else { panic!("expected an image") };
    assert_eq!((image.width, image.height), (10, 50));
    assert_eq!(image.data, vec![3, 3, 3, 255].repeat(500));
}

#[test]
fn texts_tell_the_page_and_the_place() {
    assert_eq!(loading_text(3, 300), "Rendering page 3.    (press Esc to cancel)");
    assert_eq!(loading_text(3, 999), "Rendering page 3...  (press Esc to cancel)");
    let (name, place, rows) = status_parts("/papers/a.pdf", 2, 9, 4, 7);
    assert_eq!((name.as_str(), place.as_str(), rows.as_str()), (" a.pdf ", " │ 2/9 ", " │ 4/7 rows "));
}
