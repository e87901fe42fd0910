//! The 1-bit bitmap.

use printa_ble::raster::Bitmap;

#[test]
fn set_pixel_packs_msb_first() {
    let mut b = Bitmap::new(2);
    b.set(0, 0, true); // leftmost pixel -> bit 7 of byte 0
    b.set(383, 1, true); // rightmost pixel -> bit 0 of byte 47 of row 1
    assert_eq!(b.row(0)[0], 0b1000_0000);
    assert_eq!(b.row(1)[47], 0b0000_0001);
}

#[test]
fn payloads_pack_two_rows_per_chunk() {
    let mut b = Bitmap::new(4);
    b.set(0, 2, true);
    let chunks = b.to_raster_payloads();
    assert_eq!(chunks.len(), 2);
    assert_eq!(chunks[1][0], 0b1000_0000); // row 2 = first row of chunk 1
}

#[test]
fn extend_blank_appends_white_rows() {
    let mut b = Bitmap::new(2);
    b.set(0, 1, true);
    b.extend_blank(3);
    assert_eq!(b.height(), 5);
    assert!(b.get(0, 1)); // existing content untouched
    assert!((2..5).all(|y| (0..384).all(|x| !b.get(x, y))));
}

#[test]
fn odd_height_pads_final_chunk_with_zeros() {
    let b = Bitmap::new(3);
    let chunks = b.to_raster_payloads();
    assert_eq!(chunks.len(), 2);
    assert!(chunks[1][48..].iter().all(|&x| x == 0));
}
