//! What holds of the library as a whole, on concrete values.

use printa_ble::protocol::auth::auth_response;
use printa_ble::protocol::crc::crc16_xmodem;
use printa_ble::protocol::job::{Action, PrintJob};
use printa_ble::protocol::notifications::{parse, Notification};
use printa_ble::protocol::packets::raster;
use printa_ble::protocol_x6::crc::crc8;
use printa_ble::protocol_x6::job::X6PrintJob;
use printa_ble::protocol_x6::notifications::{parse as parse_x6, X6Notification};
use printa_ble::protocol_x6::packets::{density_setup, feed_paper, frame, raw_scanline};
use printa_ble::raster::barcode::draw_columns;
use printa_ble::raster::gray::GrayImage;
use printa_ble::raster::preview::preview_pixels;
use printa_ble::raster::qr::draw_modules;
use printa_ble::raster::text::normalize;
use printa_ble::raster::urf::{decode_urf, fit_page, luma};
use printa_ble::raster::{image_to_bitmap, pages_to_bitmap, Bitmap, Dither};

#[test]
fn a_checked_message_has_checksum_zero() {
    for data in [&b"123456789"[..], b"", b"\x00\xff\x10"] {
        let mut checked = data.to_vec();
        checked.extend_from_slice(&crc16_xmodem(data).to_be_bytes());
        assert_eq!(crc16_xmodem(&checked), 0);
        let mut checked = data.to_vec();
        checked.push(crc8(data));
        assert_eq!(crc8(&checked), 0);
    }
    assert_eq!(crc16_xmodem(b"123456789"), 0x31C3);
    assert_eq!(crc8(b"123456789"), 0xF4);
}

#[test]
fn checksums_are_linear() {
    let (x, y) = (b"123456789", b"abcdefghi");
    let both: Vec<u8> = x.iter().zip(y).map(|(a, b)| a ^ b).collect();
    assert_eq!(crc8(&both), crc8(x) ^ crc8(y));
    assert_eq!(crc16_xmodem(&both), crc16_xmodem(x) ^ crc16_xmodem(y));
}

#[test]
fn equal_challenge_bytes_are_answered_alike() {
    let answer = auth_response(&[5, 9, 5, 5, 9, 1, 2, 3, 4, 5], &[1, 2, 3, 4, 5, 6]);
    assert_eq!(answer[0], answer[2]);
    assert_eq!(answer[0], answer[3]);
    assert_eq!(answer[1], answer[4]);
    assert_ne!(answer[0], answer[1]);
}

#[test]
fn no_two_raster_packets_are_alike() {
    let data = [0xAA; 96];
    assert_ne!(raster(1, &data), raster(0x0100, &data));
    let mut other = data;
    other[95] = 0;
    assert_ne!(raster(1, &data), raster(1, &other));
}

#[test]
fn a_reported_index_is_read_back() {
    for index in [0u16, 1, 0x0142, u16::MAX] {
        let [hi, lo] = index.to_be_bytes();
        assert_eq!(parse(&[0x5A, 0x05, hi, lo]), Some(Notification::LostPacket { index }));
    }
}

#[test]
fn frames_hold_their_payload() {
    let f = frame(0xA1, &[0x40, 0x01]);
    assert_eq!(f[..2], [0x51, 0x78]);
    assert_eq!(f[4..6], [2, 0]);
    assert_eq!(f[6..8], [0x40, 0x01]);
    assert_eq!(f[8], crc8(&[0x40, 0x01]));
    // What the host sends is never taken for something the printer said.
    for sent in [f, feed_paper(1), raw_scanline(&[0; 48])] {
        assert_eq!(parse_x6(&sent), None);
    }
}

#[test]
fn the_leftmost_pixel_is_the_lowest_bit_on_an_x6() {
    let mut b = Bitmap::new(1);
    b.set(0, 0, true);
    b.set(383, 0, true);
    let sent = raw_scanline(b.row(0));
    assert_eq!(sent[6], 0x01);
    assert_eq!(sent[6 + 47], 0x80);
    let mut row = [0u8; 48];
    row.copy_from_slice(&sent[6..54]);
    assert_eq!(raw_scanline(&row)[6..54], b.row(0)[..]);
}

#[test]
fn density_sets_speed_and_energy() {
    for (density, divisor, energy) in [(1, 8, 12_000u16), (3, 16, 24_000), (7, 32, 48_000)] {
        let frames = density_setup(density);
        assert_eq!(frames[0], frame(0xBD, &[divisor]));
        assert_eq!(frames[1], frame(0xAF, &energy.to_le_bytes()));
        assert_eq!(frames[2][2], 0xBE);
    }
}

#[test]
fn payloads_hold_every_row() {
    let mut b = Bitmap::new(3);
    for y in 0..3 {
        b.set(8 * y, y, true);
    }
    let payloads = b.to_raster_payloads();
    assert_eq!(payloads.len(), 2);
    assert_eq!(payloads[0][..48], b.row(0)[..]);
    assert_eq!(payloads[0][48..], b.row(1)[..]);
    assert_eq!(payloads[1][..48], b.row(2)[..]);
    assert_eq!(payloads[1][48..], [0; 48]);
}

#[test]
fn a_preview_shows_every_pixel() {
    let mut b = Bitmap::new(2);
    b.set(3, 1, true);
    let pixels = preview_pixels(&b);
    assert_eq!(pixels.len(), 768);
    assert!(pixels.iter().enumerate().all(|(i, &p)| (p == 0) == (i == 387)));
}

/// The job sends every packet once and in order, and only the tail again.
#[test]
fn a_rewind_sends_the_tail_again() {
    let mut job = PrintJob::new(&Bitmap::new(8), 3, [0; 10], 15).unwrap();
    let mut drain = |incoming: Option<Notification>| {
        if let Some(n) = incoming {
            job.on_notification(n);
        }
        let mut sent = Vec::new();
        loop {
            match job.next_action() {
                Action::Send(bytes) => sent.push(bytes),
                Action::WaitMs(_) => {}
                _ => return sent,
            }
        }
    };
    drain(None);
    drain(Some(Notification::Hello { mac: [0; 6] }));
    drain(Some(Notification::AuthChallengeReply));
    let all = drain(Some(Notification::AuthResult { ok: true }));
    assert_eq!(all.len(), 2 + 4);
    assert_eq!(drain(Some(Notification::LostPacket { index: 3 })), all[4..]);
    assert_eq!(drain(Some(Notification::LostPacket { index: 0 })), all[2..]);
    assert!(drain(Some(Notification::LostPacket { index: 5 })).is_empty());
    assert!(drain(Some(Notification::LostPacket { index: 9 })).is_empty());
    assert_eq!(drain(Some(Notification::LostPacket { index: 4 })), all[5..]);
    assert!(drain(Some(Notification::Hold)).is_empty());
    assert!(drain(Some(Notification::Cooldown)).is_empty());
    assert_eq!(drain(Some(Notification::Finished { num_packets: 4 })).len(), 1);
    assert!(drain(Some(Notification::LostPacket { index: 1 })).is_empty());
}

#[test]
fn a_full_buffer_only_delays() {
    let mut b = Bitmap::new(2);
    b.set(5, 1, true);
    let run = |pauses: bool| {
        let mut job = X6PrintJob::new(&b, 7, 15);
        let mut sent = Vec::new();
        loop {
            match job.next_action() {
                Action::Send(bytes) => {
                    sent.push(bytes);
                    if pauses {
                        job.on_notification(X6Notification::BufferFull);
                    }
                }
                Action::WaitMs(_) => {}
                Action::WaitNotification => job.on_notification(X6Notification::Ready),
                Action::Done => return sent,
            }
        }
    };
    assert_eq!(run(false), run(true));
    assert_eq!(run(false).len(), 4);
}

#[test]
fn black_and_white_pictures_stay_as_they_are() {
    let mut img = GrayImage::from_pixel(384, 40, 255);
    for y in 0..40 {
        for x in 0..384 {
            if (x * 7 + y * 13) % 5 < 2 {
                img.put_pixel(x, y, 0);
            }
        }
    }
    for dither in [Dither::FloydSteinberg, Dither::Atkinson, Dither::Threshold] {
        let b = image_to_bitmap(&img, dither);
        for y in 0..40u32 {
            for x in 0..384u32 {
                let black = img.get_pixel(x, y) == 0;
                assert_eq!(b.get(x as usize, y as usize), black, "{dither:?} {x} {y}");
            }
        }
    }
}

#[test]
fn line_ends_do_not_matter() {
    let want: Vec<char> = "a\n\nb\tc".replace('\t', "    ").chars().collect();
    for text in ["a\n\nb\tc", "a\r\n\r\nb\tc", "a\r\rb\tc"] {
        assert_eq!(normalize(text), want);
    }
}

/// Write 8-bit pages as a stream, every pixel as a repeat of one.
fn write_urf(pages: &[(u32, u32, Vec<u8>)]) -> Vec<u8> {
    let mut v = b"UNIRAST\0".to_vec();
    v.extend_from_slice(&(pages.len() as u32).to_be_bytes());
    for (width, dpi, shades) in pages {
        let height = shades.len() as u32 / width;
        v.extend_from_slice(&[8, 0, 1, 4, 0, 0, 0, 0, 0, 0, 0, 0]);
        for n in [*width, height, *dpi] {
            v.extend_from_slice(&n.to_be_bytes());
        }
        v.extend_from_slice(&[0; 8]);
        for row in shades.chunks(*width as usize) {
            v.push(0);
            for &shade in row {
                v.extend_from_slice(&[0, shade]);
            }
        }
    }
    v
}

#[test]
fn written_pages_are_read_back() {
    let pages = [(3, 203, vec![0, 1, 2, 250, 251, 252]), (2, 600, vec![9, 8])];
    let read = decode_urf(&write_urf(&pages)).unwrap();
    assert_eq!(read.len(), 2);
    for ((width, dpi, shades), page) in pages.iter().zip(&read) {
        assert_eq!((page.width, page.dpi), (*width, *dpi));
        assert_eq!(page.gray.to_raw(), *shades);
    }
}

#[test]
fn blank_pages_cost_no_paper() {
    let ink = (384, 203, vec![0; 384 * 3]);
    let blank = (384, 203, vec![255; 384 * 3]);
    let both = decode_urf(&write_urf(&[blank.clone(), ink.clone(), blank])).unwrap();
    let one = decode_urf(&write_urf(&[ink])).unwrap();
    assert!(fit_page(&both[0]).is_none());
    let a = pages_to_bitmap(&both, Dither::Threshold);
    let b = pages_to_bitmap(&one, Dither::Threshold);
    assert_eq!(preview_pixels(&a), preview_pixels(&b));
}

#[test]
fn gray_keeps_its_shade_as_three_parts() {
    assert!((0..=255).all(|v| luma(v, v, v) == v));
    assert_eq!(luma(255, 0, 0), 76);
}

#[test]
fn codes_keep_their_quiet_zone() {
    let b = draw_modules(21, &[true; 441]);
    // 384 / (21 + 8) = 13 pixels for each module.
    let side = 13 * 29;
    let left = (384 - side) / 2 + 4 * 13;
    for y in 0..b.height() {
        assert!((0..left).all(|x| !b.get(x, y)));
        assert!((left + 13 * 21..384).all(|x| !b.get(x, y)));
    }
    let top = (0..b.height()).find(|&y| b.get(left, y)).unwrap();
    assert_eq!(top, 16 + 4 * 13);
}

#[test]
fn bars_are_centered() {
    let b = draw_columns(&[1; 100]).unwrap();
    let left = (0..384).find(|&x| b.get(x, 0)).unwrap();
    let right = (0..384).rfind(|&x| b.get(x, 0)).unwrap();
    assert_eq!(left, 384 - 1 - right);
    assert_eq!(b.height(), 80);
}
