//! Code128 barcodes.

use printa_ble::raster::barcode::{render_barcode, BarcodeError, BAR_HEIGHT, QUIET};
use printa_ble::raster::bitmap::WIDTH;
use printa_ble::raster::Bitmap;

/// Longest run of consecutive black pixels down column `x`.
fn tallest_run(b: &Bitmap, x: usize) -> usize {
    let (mut best, mut run) = (0, 0);
    for y in 0..b.height() {
        run = if b.get(x, y) { run + 1 } else { 0 };
        best = best.max(run);
    }
    best
}

#[test]
fn plain_ascii_needs_no_escape_character() {
    // The point of this module: users never type `Ɓ`.
    let b = render_barcode("TICKET42").expect("plain ASCII must encode");
    assert_eq!(b.height(), BAR_HEIGHT);
    let bars = (0..WIDTH)
        .filter(|&x| tallest_run(&b, x) == BAR_HEIGHT)
        .count();
    assert!(bars > 50, "only {bars} full-height bar columns");
}

#[test]
fn bars_sit_inside_the_quiet_zone_and_are_centered() {
    let b = render_barcode("HELLO123").unwrap();
    let inked: Vec<usize> = (0..WIDTH).filter(|&x| b.get(x, 0)).collect();
    let (&min_x, &max_x) = (inked.first().unwrap(), inked.last().unwrap());
    assert!(min_x >= QUIET, "ink at x = {min_x}, inside the quiet zone");
    assert!(
        max_x < WIDTH - QUIET,
        "ink at x = {max_x}, inside the quiet zone"
    );
    let right = WIDTH - 1 - max_x;
    // Code128 always ends on a dark module, so the ink box is the symbol.
    assert!(
        min_x.abs_diff(right) <= 2,
        "not centered: left {min_x}, right {right}"
    );
}

#[test]
fn printable_ascii_span_encodes() {
    let all: String = (' '..='~').collect();
    // Too long to fit, but it must fail on width, never on charset.
    assert!(matches!(
        render_barcode(&all).unwrap_err(),
        BarcodeError::TooLong
    ));
    for chunk in [
        "abc xyz",
        "0123456789",
        r##"!"#$%&'()*+,-./"##,
        "<=>?@[\\]^_`{|}~",
    ] {
        assert!(render_barcode(chunk).is_ok(), "{chunk:?} should encode");
    }
}

#[test]
fn empty_and_non_ascii_are_rejected() {
    assert!(matches!(
        render_barcode("").unwrap_err(),
        BarcodeError::Empty
    ));
    for bad in ["café", "☕", "a\tb", "a\nb"] {
        assert!(
            matches!(render_barcode(bad).unwrap_err(), BarcodeError::Charset),
            "{bad:?} should be rejected"
        );
    }
}

#[test]
fn single_character_encodes() {
    // `Code128::new` rejects payloads under 2 bytes; the charset escape is
    // 2 bytes on its own, so a 1-char payload must still work.
    assert!(render_barcode("7").is_ok());
}
