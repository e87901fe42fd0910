//! The X6 print job.

use printa_ble::protocol::job::{Action, JobStats};
use printa_ble::protocol_x6::job::{X6PrintJob, SETTLE_MS};
use printa_ble::protocol_x6::notifications::X6Notification;
use printa_ble::raster::Bitmap;

fn drain_sends(job: &mut X6PrintJob) -> Vec<Vec<u8>> {
    let mut sent = vec![];
    loop {
        match job.next_action() {
            Action::Send(b) => sent.push(b),
            Action::WaitMs(_) => continue,
            _ => break,
        }
    }
    sent
}

#[test]
fn happy_path_streams_blank_lead_then_rows_then_feed() {
    let mut bitmap = Bitmap::new(2);
    bitmap.set(0, 0, true); // MSB-first 0x80 -> wire 0x01
    let mut job = X6PrintJob::new(&bitmap, 64, 0);

    let sent = drain_sends(&mut job);
    // blank artifact-guard line, 2 bitmap rows, feed
    assert_eq!(sent.len(), 4);
    assert_eq!(&sent[0][..3], &[0x51, 0x78, 0xA2]);
    assert!(sent[0][6..54].iter().all(|&b| b == 0)); // lead row is blank
    assert_eq!(sent[1][6], 0x01); // bit-reversed pixel
    assert_eq!(&sent[3][..3], &[0x51, 0x78, 0xA1]); // trailing feed
    assert_eq!(&sent[3][6..8], &[64, 0]); // 64 px LE
    assert!(matches!(job.next_action(), Action::Done));
}

#[test]
fn buffer_full_pauses_until_ready() {
    let bitmap = Bitmap::new(4);
    let mut job = X6PrintJob::new(&bitmap, 0, 0);
    let _ = job.next_action(); // lead row
    let _ = job.next_action(); // row 0

    job.on_notification(X6Notification::BufferFull);
    assert!(matches!(job.next_action(), Action::WaitNotification));
    assert!(matches!(job.next_action(), Action::WaitNotification));

    job.on_notification(X6Notification::Ready);
    match job.next_action() {
        Action::Send(p) => assert_eq!(p[2], 0xA2),
        other => panic!("expected resumed scanline, got {other:?}"),
    }
    assert_eq!(job.stats().holds, 1);
}

#[test]
fn ready_without_pause_is_ignored() {
    let bitmap = Bitmap::new(2);
    let mut job = X6PrintJob::new(&bitmap, 0, 0);
    job.on_notification(X6Notification::Ready);
    assert_eq!(job.stats(), JobStats::default());
    // still streams from the start
    match job.next_action() {
        Action::Send(p) => assert_eq!(p[2], 0xA2),
        other => panic!("expected scanline, got {other:?}"),
    }
}

#[test]
fn inter_packet_delay_between_scanlines_only() {
    let bitmap = Bitmap::new(2);
    let mut job = X6PrintJob::new(&bitmap, 64, 15);
    assert!(matches!(job.next_action(), Action::Send(_))); // lead
    assert!(matches!(job.next_action(), Action::WaitMs(15)));
    assert!(matches!(job.next_action(), Action::Send(_))); // row 0
    assert!(matches!(job.next_action(), Action::WaitMs(15)));
    assert!(matches!(job.next_action(), Action::Send(_))); // row 1

    // no delay between last scanline and the feed command
    match job.next_action() {
        Action::Send(p) => assert_eq!(p[2], 0xA1),
        other => panic!("expected feed, got {other:?}"),
    }
}

#[test]
fn settle_wait_before_done() {
    let bitmap = Bitmap::new(1);
    let mut job = X6PrintJob::new(&bitmap, 64, 0);
    let _ = job.next_action(); // lead row
    let _ = job.next_action(); // row 0
    let _ = job.next_action(); // feed
    assert!(matches!(job.next_action(), Action::WaitMs(SETTLE_MS)));
    assert!(matches!(job.next_action(), Action::Done));
}

#[test]
fn zero_feed_skips_feed_command() {
    let bitmap = Bitmap::new(1);
    let mut job = X6PrintJob::new(&bitmap, 0, 0);
    let sent = drain_sends(&mut job);
    assert_eq!(sent.len(), 2); // lead + row, no 0xA1
    assert!(sent.iter().all(|p| p[2] == 0xA2));
}

#[test]
fn stats_count_scanlines_not_feed() {
    let bitmap = Bitmap::new(3);
    let mut job = X6PrintJob::new(&bitmap, 64, 0);
    drain_sends(&mut job);
    assert_eq!(job.stats().packets_sent, 4); // lead + 3 rows
    assert_eq!(job.stats().retransmits, 0);
    assert_eq!(job.stats().cooldowns, 0);
}
