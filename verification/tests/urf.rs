//! Apple Raster pages.

use printa_ble::raster::bitmap::WIDTH;
use printa_ble::raster::gray::GrayImage;
use printa_ble::raster::urf::{
    decode_urf, ink_bounds, luma, pages_to_bitmap, width_mm, UrfError, UrfPage, END_OF_ROW,
    PAGE_GAP,
};
use printa_ble::raster::Dither;

const MAGIC: &[u8] = b"UNIRAST\0";

/// The size of a decoded page.
fn dimensions(page: &UrfPage) -> (u32, u32) {
    (page.gray.width(), page.gray.height())
}

/// Build a minimal single-page stream around pre-encoded row data.
fn stream(bpp: u8, width: u32, height: u32, body: &[u8]) -> Vec<u8> {
    let mut v = Vec::new();
    v.extend_from_slice(MAGIC);
    v.extend_from_slice(&1u32.to_be_bytes());
    v.push(bpp);
    v.extend_from_slice(&[0, 1, 0]); // colorspace, duplex, quality
    v.extend_from_slice(&[0; 8]); // two reserved words
    v.extend_from_slice(&width.to_be_bytes());
    v.extend_from_slice(&height.to_be_bytes());
    v.extend_from_slice(&203u32.to_be_bytes());
    v.extend_from_slice(&[0; 8]);
    v.extend_from_slice(body);
    v
}

#[test]
fn decodes_repeat_and_literal_runs() {
    // Row of 4: two black (repeat), then two literals 0x40 and 0x80.
    let body = [
        0x00, // line appears once
        0x01, 0x00, // repeat 0x00 twice
        0xFF, 0x40, 0x80, // 257-255 = 2 literals
    ];
    let pages = decode_urf(&stream(8, 4, 1, &body)).unwrap();
    let row: Vec<u8> = pages[0].gray.to_raw();
    assert_eq!(row, vec![0x00, 0x00, 0x40, 0x80]);
}

#[test]
fn line_repeat_duplicates_rows() {
    // repeat = 2 means the line appears three times.
    let body = [0x02, 0x03, 0x11];
    let pages = decode_urf(&stream(8, 4, 3, &body)).unwrap();
    assert_eq!(dimensions(&pages[0]), (4, 3));
    assert!(pages[0].gray.to_raw().iter().all(|&p| p == 0x11));
}

#[test]
fn over_repeated_final_line_is_clamped_not_rejected() {
    // Claims 200 more copies of the line but only 2 rows exist.
    let body = [0xC8, 0x03, 0x22];
    let pages = decode_urf(&stream(8, 4, 2, &body)).expect("should clamp");
    assert_eq!(dimensions(&pages[0]), (4, 2));
}

#[test]
fn rgb_pages_flatten_to_luma() {
    // 0xFF is the *longest* literal run at 257 - 255 = 2 pixels, so a
    // literal can never encode a single pixel — that needs a repeat of 1.
    // Here: two literals (red, green), then white repeated twice.
    let body = [
        0x00, // line appears once
        0xFF, 0xFF, 0x00, 0x00, 0x00, 0xFF, 0x00, // literal red, green
        0x01, 0xFF, 0xFF, 0xFF, // repeat white twice
    ];
    let pages = decode_urf(&stream(24, 4, 1, &body)).unwrap();
    let row: Vec<u8> = pages[0].gray.to_raw();
    assert_eq!(row[0], luma(255, 0, 0));
    assert_eq!(row[1], luma(0, 255, 0));
    assert_eq!(&row[2..], &[255, 255]);
}

#[test]
fn pwg_raster_is_named_rather_than_called_bad_magic() {
    let mut v = b"RaS2".to_vec();
    v.extend_from_slice(&[0u8; 32]);
    assert_eq!(decode_urf(&v).unwrap_err(), UrfError::PwgRaster);
}

#[test]
fn rejects_bad_magic() {
    let mut bad = stream(8, 4, 1, &[0x00, 0x03, 0x00]);
    bad[0] = b'X';
    assert_eq!(decode_urf(&bad).unwrap_err(), UrfError::BadMagic);
}

/// 0x80 ends the line; the rest must come out blank, not inherit the
/// previous row's pixels out of the reusable scratch buffer.
#[test]
fn end_of_row_marker_blanks_the_remainder() {
    // Row 0: 4 black pixels. Row 1: 1 black pixel, then end-of-row.
    let body = [
        0x00, 0x03, 0x00, // row 0: repeat black x4
        0x00, 0x00, 0x00, END_OF_ROW, // row 1: one black, then stop
    ];
    let pages = decode_urf(&stream(8, 4, 2, &body)).unwrap();
    let px: Vec<u8> = pages[0].gray.to_raw();
    assert_eq!(&px[..4], &[0, 0, 0, 0], "row 0 should be all black");
    assert_eq!(
        &px[4..],
        &[0, 255, 255, 255],
        "row 1 must blank after the marker, not smear row 0"
    );
}

#[test]
fn rejects_run_past_end_of_row() {
    // Repeat 10 pixels into a 4-pixel row.
    let body = [0x00, 0x09, 0x00];
    assert_eq!(
        decode_urf(&stream(8, 4, 1, &body)).unwrap_err(),
        UrfError::RowOverrun(0, 0)
    );
}

#[test]
fn rejects_unsupported_depth() {
    assert_eq!(
        decode_urf(&stream(1, 4, 1, &[0x00, 0x03, 0x00])).unwrap_err(),
        UrfError::UnsupportedDepth(1)
    );
}

#[test]
fn rejects_absurd_geometry_without_allocating() {
    let err = decode_urf(&stream(8, 40_000, 40_000, &[])).unwrap_err();
    assert!(matches!(err, UrfError::PageTooLarge(0, 40_000, 40_000)));
}

#[test]
fn rejects_zero_sized_page() {
    assert_eq!(
        decode_urf(&stream(8, 0, 10, &[])).unwrap_err(),
        UrfError::EmptyPage(0)
    );
}

#[test]
fn rejects_truncation_mid_row() {
    // Declares 4 rows but supplies data for one.
    let body = [0x00, 0x03, 0x00];
    assert!(matches!(
        decode_urf(&stream(8, 4, 4, &body)),
        Err(UrfError::Truncated(_))
    ));
}

#[test]
fn rejects_truncated_header() {
    assert!(matches!(
        decode_urf(&stream(8, 4, 1, &[0x00, 0x03, 0x00])[..20]),
        Err(UrfError::Truncated(_))
    ));
}

#[test]
fn rejects_implausible_page_count() {
    let mut v = MAGIC.to_vec();
    v.extend_from_slice(&100_000u32.to_be_bytes());
    assert_eq!(decode_urf(&v).unwrap_err(), UrfError::TooManyPages(100_000));
}

/// Build a page whose only ink is a filled rectangle.
fn page_with_box(w: u32, h: u32, bx: u32, by: u32, bw: u32, bh: u32) -> UrfPage {
    let mut gray = GrayImage::from_pixel(w, h, 255);
    for y in by..by + bh {
        for x in bx..bx + bw {
            gray.put_pixel(x, y, 0);
        }
    }
    UrfPage {
        width: w,
        height: h,
        dpi: 203,
        gray,
    }
}

#[test]
fn ink_bounds_finds_the_content_box() {
    let page = page_with_box(100, 80, 10, 20, 30, 40);
    assert_eq!(ink_bounds(&page.gray), Some((10, 20, 40, 60)));
}

#[test]
fn ink_bounds_is_none_for_a_blank_page() {
    let blank = GrayImage::from_pixel(50, 50, 255);
    assert_eq!(ink_bounds(&blank), None);
}

#[test]
fn near_white_speckle_does_not_defeat_the_crop() {
    // A margin full of 250-grey noise must not count as content, or the
    // crop silently degrades to "the whole page".
    let mut page = page_with_box(200, 200, 80, 80, 20, 20);
    page.gray.put_pixel(2, 2, 250);
    page.gray.put_pixel(197, 197, 250);
    let (x0, y0, x1, y1) = ink_bounds(&page.gray).unwrap();
    assert_eq!((x0, y0, x1, y1), (80, 80, 100, 100));
}

#[test]
fn blank_pages_are_skipped_entirely() {
    let blank = UrfPage {
        width: 100,
        height: 100,
        dpi: 203,
        gray: GrayImage::from_pixel(100, 100, 255),
    };
    let bmp = pages_to_bitmap(&[blank], Dither::Threshold);
    assert_eq!(bmp.height(), 0, "a blank page must not cost paper");
}

/// A page with nothing on it.
fn blank_page(w: u32, h: u32) -> UrfPage {
    page_with_box(w, h, 0, 0, 0, 0)
}

/// A page the client already sized for 48 mm paper keeps its layout: the
/// small mark stays small instead of being blown up to fill the width.
#[test]
fn receipt_width_page_is_not_cropped_to_ink() {
    // 383 px at 203 dpi = 47.9 mm, exactly what a cooperating client sends.
    let mut page = page_with_box(383, 2000, 10, 500, 40, 40);
    page.dpi = 203;
    assert_eq!(width_mm(&page), Some(47));

    let bmp = pages_to_bitmap(std::slice::from_ref(&page), Dither::Threshold);
    // Blank rows gone (2000 -> ~40), but the mark was not scaled up to
    // fill 384 px, which ink-cropping would have done.
    assert!(
        bmp.height() < 100,
        "expected blank rows trimmed to about the mark height, got {}",
        bmp.height()
    );
    let inked_cols = (0..WIDTH)
        .filter(|&x| (0..bmp.height()).any(|y| bmp.get(x, y)))
        .count();
    assert!(
        inked_cols < WIDTH / 2,
        "a 40 px mark must stay narrow, not be stretched across the page"
    );
}

/// The same geometry sent as US Letter still gets the crop treatment.
#[test]
fn letter_page_still_crops_to_ink() {
    let mut page = page_with_box(5100, 6600, 100, 100, 400, 200);
    page.dpi = 600;
    assert_eq!(width_mm(&page), Some(215));
    let bmp = pages_to_bitmap(std::slice::from_ref(&page), Dither::Threshold);
    let inked_cols = (0..WIDTH)
        .filter(|&x| (0..bmp.height()).any(|y| bmp.get(x, y)))
        .count();
    assert!(
        inked_cols > WIDTH / 2,
        "a Letter page should be cropped and scaled up to fill the width"
    );
}

#[test]
fn zero_dpi_falls_back_to_cropping() {
    let mut page = page_with_box(383, 2000, 10, 500, 40, 40);
    page.dpi = 0;
    assert_eq!(width_mm(&page), None);
    // Must not divide by zero, and must still produce something printable.
    assert!(pages_to_bitmap(&[page], Dither::Threshold).height() > 0);
}

#[test]
fn cropping_beats_scaling_the_whole_page() {
    // Small mark on a big page: cropped output is far taller (and so far
    // more legible) than the ~1 px the full-page scale would leave.
    let page = page_with_box(4000, 5000, 100, 100, 400, 200);
    let bmp = pages_to_bitmap(&[page], Dither::Threshold);
    assert!(
        bmp.height() > 100,
        "expected the crop to fill the width, got {} rows",
        bmp.height()
    );
}

#[test]
fn multiple_pages_stack_with_a_gap() {
    let a = page_with_box(400, 400, 50, 50, 100, 100);
    let b = page_with_box(400, 400, 50, 50, 100, 100);
    let one = pages_to_bitmap(std::slice::from_ref(&a), Dither::Threshold);
    let two = pages_to_bitmap(&[a, b], Dither::Threshold);
    assert_eq!(two.height(), one.height() * 2 + PAGE_GAP);
}

#[test]
fn pages_print_alike_alone_and_in_a_stack() {
    let inked = [
        page_with_box(400, 400, 50, 50, 100, 100),
        page_with_box(700, 300, 10, 20, 600, 90),
        page_with_box(384, 200, 0, 0, 384, 200),
    ];
    let mut alone: Vec<Vec<u8>> = Vec::new();
    for (i, page) in inked.iter().enumerate() {
        if i > 0 {
            alone.extend(vec![vec![0u8; 48]; 24]);
        }
        let b = pages_to_bitmap(std::slice::from_ref(page), Dither::FloydSteinberg);
        alone.extend((0..b.height()).map(|y| b.row(y).to_vec()));
    }
    let [a, b, c] = inked;
    let stack = pages_to_bitmap(&[a, blank_page(400, 400), b, c], Dither::FloydSteinberg);
    let stack: Vec<Vec<u8>> = (0..stack.height()).map(|y| stack.row(y).to_vec()).collect();
    assert_eq!(stack, alone);
    assert_eq!(pages_to_bitmap(&[blank_page(400, 400)], Dither::Threshold).height(), 0);
}

#[test]
fn a_receipt_page_of_the_print_width_is_copied() {
    // 384 px at 203 dpi are 48 mm: the page was laid out for this paper.
    let mut page = page_with_box(384, 40, 383, 10, 1, 20);
    page.dpi = 203;
    let b = pages_to_bitmap(&[page], Dither::Threshold);
    assert_eq!(b.height(), 20);
    for y in 0..20 {
        assert!(b.get(383, y) && !b.get(382, y) && !b.get(0, y));
    }
}

#[test]
fn cut_streams_are_truncated_and_trailing_bytes_do_not_matter() {
    // One line, shown twice: a repeat of one pixel, then two literal ones.
    let whole = stream(8, 3, 2, &[1, 0, 10, 255, 20, 30]);
    let shades = |bytes: &[u8]| decode_urf(bytes).map(|p| p[0].gray.to_raw());
    assert_eq!(shades(&whole).unwrap(), [10, 20, 30, 10, 20, 30]);
    for n in 0..whole.len() {
        assert!(matches!(shades(&whole[..n]), Err(UrfError::Truncated(_))), "cut at {n}");
    }
    let mut longer = whole.clone();
    longer.extend_from_slice(&[1, 2, 3, 255]);
    for n in whole.len()..=longer.len() {
        assert_eq!(shades(&longer[..n]).unwrap(), [10, 20, 30, 10, 20, 30]);
    }
}

#[test]
fn empty_stream_decodes_to_no_pages() {
    let mut v = MAGIC.to_vec();
    v.extend_from_slice(&0u32.to_be_bytes());
    assert!(decode_urf(&v).unwrap().is_empty());
}
