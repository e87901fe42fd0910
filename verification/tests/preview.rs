//! PNG previews.

use printa_ble::raster::picture::bitmap_from_image_bytes;
use printa_ble::raster::{bitmap_to_png, Bitmap, Dither};

#[test]
fn roundtrips_through_png() {
    let mut b = Bitmap::new(2);
    b.set(0, 0, true);
    let png = bitmap_to_png(&b);
    let img = image::load_from_memory(&png).unwrap().to_luma8();
    assert_eq!(img.width(), 384);
    assert_eq!(img.height(), 2);
    assert_eq!(img.get_pixel(0, 0).0[0], 0);     // black
    assert_eq!(img.get_pixel(1, 0).0[0], 255);   // white
}

#[test]
fn zero_height_bitmap_gives_white_384x1_png() {
    let png = bitmap_to_png(&Bitmap::new(0));
    let img = image::load_from_memory(&png).unwrap().to_luma8();
    assert_eq!(img.width(), 384);
    assert_eq!(img.height(), 1);
    assert!(img.pixels().all(|p| p.0[0] == 255));
}

#[test]
fn a_printed_preview_is_the_same_print() {
    let mut b = Bitmap::new(300);
    for y in 0..300 {
        for x in 0..384 {
            b.set(x, y, (x * 7 + y * y * 13) % 5 < 2);
        }
    }
    let png = bitmap_to_png(&b);
    for dither in [Dither::FloydSteinberg, Dither::Atkinson, Dither::Threshold] {
        let again = bitmap_from_image_bytes(&png, dither).unwrap();
        assert_eq!(again.height(), 300);
        assert!((0..300).all(|y| again.row(y) == b.row(y)));
    }
}
