//! Frames to the printers.

use printa_ble::protocol::packets::{
    auth_challenge, auth_reply, hello, print_end, print_start, raster, set_density,
};
use printa_ble::protocol_x6::crc::crc8;
use printa_ble::protocol_x6::packets::{feed_paper, frame, raw_scanline};

#[test]
fn hello_packet_bytes() {
    assert_eq!(hello(), [0x5A, 0x01, 0, 0, 0, 0, 0, 0, 0, 0, 0, 0]);
}

#[test]
fn density_packet_bytes() {
    assert_eq!(set_density(3), [0x5A, 0x0C, 3]);
}

#[test]
fn print_start_end_encode_length_big_endian() {
    assert_eq!(print_start(0x0142), [0x5A, 0x04, 0x01, 0x42, 0x00, 0x00]);
    assert_eq!(print_end(0x0142), [0x5A, 0x04, 0x01, 0x42, 0x01, 0x00]);
}

#[test]
fn auth_challenge_packet() {
    let c = [9u8; 10];
    let p = auth_challenge(&c);
    assert_eq!(&p[..2], &[0x5A, 0x0A]);
    assert_eq!(&p[2..], &c);
}

#[test]
fn auth_reply_packet() {
    let r = [7u8; 10];
    let p = auth_reply(&r);
    assert_eq!(&p[..2], &[0x5A, 0x0B]);
    assert_eq!(&p[2..], &r);
}

#[test]
fn raster_packet_layout() {
    let data = [0xFFu8; 96];
    let p = raster(0x0203, &data);
    assert_eq!(p.len(), 100);
    assert_eq!(&p[..3], &[0x55, 0x02, 0x03]);
    assert_eq!(&p[3..99], &data[..]);
    assert_eq!(p[99], 0x00);
}

/// Layout check against the worked example
/// `51 78 A4 00 01 00 35 8B FF` (command 0xA4, payload [0x35]).
#[test]
fn frame_matches_documented_example() {
    assert_eq!(
        frame(0xA4, &[0x35]),
        vec![0x51, 0x78, 0xA4, 0x00, 0x01, 0x00, 0x35, 0x8B, 0xFF]
    );
}

#[test]
fn feed_paper_encodes_pixels_le() {
    // 0x0140 = 320 pixels; CRC over [0x40, 0x01] is 0x5C.
    assert_eq!(
        feed_paper(0x0140),
        vec![0x51, 0x78, 0xA1, 0x00, 0x02, 0x00, 0x40, 0x01, 0x5C, 0xFF]
    );
}

#[test]
fn raw_scanline_frame_shape() {
    let row = [0u8; 48];
    let p = raw_scanline(&row);
    assert_eq!(p.len(), 2 + 1 + 1 + 2 + 48 + 1 + 1); // 56
    assert_eq!(&p[..6], &[0x51, 0x78, 0xA2, 0x00, 0x30, 0x00]);
    assert_eq!(p[54], 0x00); // CRC of 48 zero bytes is 0
    assert_eq!(p[55], 0xFF);
}

/// Bitmap is MSB-first (leftmost pixel = 0x80); the X6 wants the leftmost
/// pixel in the least-significant bit, so every byte is bit-reversed.
#[test]
fn raw_scanline_reverses_bit_order() {
    let mut row = [0u8; 48];
    row[0] = 0x80; // pixel x=0 black
    row[1] = 0x40; // pixel x=9 black
    let p = raw_scanline(&row);
    assert_eq!(p[6], 0x01);
    assert_eq!(p[7], 0x02);
}

/// Every vector is lifted from a captured frame, not computed by us:
/// `51 78 A4 00 01 00 35 8B FF` (quality packet),
/// `51 78 AE 01 01 00 10 70 FF` (buffer full),
/// `51 78 AE 01 01 00 00 00 FF` (ready).
#[test]
fn matches_captured_frames() {
    assert_eq!(crc8(&[0x35]), 0x8B);
    assert_eq!(crc8(&[0x10]), 0x70);
    assert_eq!(crc8(&[0x00]), 0x00);
}

#[test]
fn empty_payload_is_zero() {
    assert_eq!(crc8(&[]), 0x00);
}

#[test]
fn multi_byte_payload() {
    // Feed-paper payload 0x0140 pixels, LE: 40 01.
    // Hand-walked through the table: table[0x40]=0xC7,
    // table[0xC7 ^ 0x01]=table[0xC6]=0x5C.
    assert_eq!(crc8(&[0x40, 0x01]), 0x5C);
}
