//! Scaling and dithering.

use printa_ble::raster::gray::GrayImage;
use printa_ble::raster::{image_to_bitmap, prepare, Dither};

#[test]
fn threshold_maps_dark_to_black() {
    let img = GrayImage::from_pixel(384, 2, 10);
    let b = image_to_bitmap(&img, Dither::Threshold);
    assert!(b.get(0, 0) && b.get(383, 1)); // black everywhere
}

#[test]
fn threshold_maps_light_to_white() {
    let img = GrayImage::from_pixel(384, 2, 250);
    let b = image_to_bitmap(&img, Dither::Threshold);
    assert!(!b.get(0, 0) && !b.get(383, 1));
}

#[test]
fn floyd_steinberg_mid_gray_is_half_black() {
    let img = GrayImage::from_pixel(384, 100, 128);
    let b = image_to_bitmap(&img, Dither::FloydSteinberg);
    let black: usize = (0..100)
        .flat_map(|y| (0..384).map(move |x| (x, y)))
        .filter(|&(x, y)| b.get(x, y))
        .count();
    let ratio = black as f64 / (384.0 * 100.0);
    assert!((0.4..0.6).contains(&ratio), "ratio {ratio}");
}

#[test]
fn prepare_scales_to_384_wide() {
    let img = GrayImage::from_pixel(768, 200, 0);
    let g = prepare(&img);
    assert_eq!(g.width(), 384);
    assert_eq!(g.height(), 100);
}

#[test]
fn prepare_clamps_height_to_4096() {
    // 10x1000 would scale to 384x38400; clamped to the paper cap.
    let img = GrayImage::from_pixel(10, 1000, 0);
    let g = prepare(&img);
    assert_eq!(g.width(), 384);
    assert_eq!(g.height(), 4096);
}

#[test]
fn prepare_zero_width_gives_white_384x1() {
    let img = GrayImage::from_pixel(0, 10, 0);
    let g = prepare(&img);
    assert_eq!((g.width(), g.height()), (384, 1));
    assert!(g.to_raw().iter().all(|&p| p == 255));
}
