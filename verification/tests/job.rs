//! The LX-D02 print job.

use printa_ble::protocol::job::{Action, JobError, PrintJob, COOLDOWN_MS};
use printa_ble::protocol::notifications::Notification;
use printa_ble::raster::Bitmap;

const MAC: [u8; 6] = [1, 2, 3, 4, 5, 6];
const CHALLENGE: [u8; 10] = [7u8; 10];

fn hello_reply() -> Notification {
    Notification::Hello { mac: MAC }
}

fn drain_sends(job: &mut PrintJob) -> Vec<Vec<u8>> {
    let mut sent = vec![];
    loop {
        match job.next_action() {
            Action::Send(b) => sent.push(b),
            Action::WaitMs(_) => continue,
            _ => break,
        }
    }
    sent
}

fn two_packet_job() -> PrintJob {
    // 3-row bitmap -> 2 raster payloads
    let bitmap = Bitmap::new(3);
    PrintJob::new(&bitmap, 3, CHALLENGE, 0).unwrap()
}

/// Fast-forward through hello + auth exchange, stopping right before the
/// auth result so tests can feed a pass or a failure.
fn complete_handshake(job: &mut PrintJob) {
    drain_sends(job);
    job.on_notification(hello_reply());
    drain_sends(job);
    job.on_notification(Notification::AuthChallengeReply);
    drain_sends(job);
}

/// A two-packet job that has passed the handshake and is ready to stream.
fn authed_job() -> PrintJob {
    let mut job = two_packet_job();
    complete_handshake(&mut job);
    job.on_notification(Notification::AuthResult { ok: true });
    job
}

#[test]
fn happy_path_full_sequence() {
    let mut job = two_packet_job();

    // hello
    let sent = drain_sends(&mut job);
    assert_eq!(sent.len(), 1);
    assert_eq!(&sent[0][..2], &[0x5A, 0x01]);

    job.on_notification(hello_reply());
    let sent = drain_sends(&mut job); // challenge
    assert_eq!(&sent[0][..2], &[0x5A, 0x0A]);

    job.on_notification(Notification::AuthChallengeReply);
    let sent = drain_sends(&mut job); // auth response
    assert_eq!(&sent[0][..2], &[0x5A, 0x0B]);

    job.on_notification(Notification::AuthResult { ok: true });
    let sent = drain_sends(&mut job);
    // density, start, raster 0, raster 1 — then waiting for Finished
    assert_eq!(&sent[0][..2], &[0x5A, 0x0C]);
    assert_eq!(&sent[1][..4], &[0x5A, 0x04, 0x00, 0x02]);
    assert_eq!(&sent[2][..3], &[0x55, 0x00, 0x00]);
    assert_eq!(&sent[3][..3], &[0x55, 0x00, 0x01]);
    assert_eq!(sent.len(), 4);

    job.on_notification(Notification::Finished { num_packets: 2 });
    let sent = drain_sends(&mut job); // print end
    assert_eq!(&sent[0], &[0x5A, 0x04, 0x00, 0x02, 0x01, 0x00]);
    assert!(matches!(job.next_action(), Action::Done));
}

#[test]
fn lost_packet_rewinds_to_index_minus_one() {
    let mut job = authed_job();
    drain_sends(&mut job); // all packets streamed

    job.on_notification(Notification::LostPacket { index: 1 });
    let sent = drain_sends(&mut job);
    // resent from index 0 (= 1 - 1): packets 0 and 1 again
    assert_eq!(&sent[0][..3], &[0x55, 0x00, 0x00]);
    assert_eq!(&sent[1][..3], &[0x55, 0x00, 0x01]);
}

#[test]
fn hold_pauses_until_lost_packet_resumes() {
    let mut job = authed_job();

    // stream first packet, then printer says hold
    let _ = job.next_action(); // density
    let _ = job.next_action(); // start
    let _ = job.next_action(); // raster 0
    job.on_notification(Notification::Hold);
    assert!(matches!(job.next_action(), Action::WaitNotification));

    job.on_notification(Notification::LostPacket { index: 1 });
    match job.next_action() {
        Action::Send(p) => assert_eq!(&p[..3], &[0x55, 0x00, 0x00]),
        other => panic!("expected resume send, got {other:?}"),
    }
}

#[test]
fn oversized_bitmap_errors() {
    // 131,073 rows -> 65,537 packets, one more than a u16 index allows.
    let bitmap = Bitmap::new(131_073);
    assert!(matches!(
        PrintJob::new(&bitmap, 3, CHALLENGE, 0),
        Err(JobError::TooLarge { packets: 65_537 })
    ));
}

#[test]
fn auth_failure_is_fatal() {
    let mut job = two_packet_job();
    complete_handshake(&mut job);
    job.on_notification(Notification::AuthResult { ok: false });
    assert!(job.error().is_some());
}

#[test]
fn cooldown_waits_100ms_then_resumes() {
    let mut job = authed_job();

    let _ = job.next_action(); // density
    let _ = job.next_action(); // start
    let _ = job.next_action(); // raster 0
    job.on_notification(Notification::Cooldown);
    assert!(matches!(job.next_action(), Action::WaitMs(COOLDOWN_MS)));
    match job.next_action() {
        Action::Send(p) => assert_eq!(&p[..3], &[0x55, 0x00, 0x01]),
        other => panic!("expected resumed send, got {other:?}"),
    }
}

#[test]
fn lost_packet_index_zero_rewinds_to_zero() {
    let mut job = authed_job();
    drain_sends(&mut job); // all packets streamed

    job.on_notification(Notification::LostPacket { index: 0 });
    let sent = drain_sends(&mut job);
    assert_eq!(&sent[0][..3], &[0x55, 0x00, 0x00]);
    assert_eq!(sent.len(), 2);
}

#[test]
fn finished_while_streaming_moves_to_print_end() {
    let mut job = authed_job();

    let _ = job.next_action(); // density
    let _ = job.next_action(); // start
    let _ = job.next_action(); // raster 0

    // printer claims completion before we sent everything
    job.on_notification(Notification::Finished { num_packets: 2 });
    let sent = drain_sends(&mut job);
    assert_eq!(&sent[0], &[0x5A, 0x04, 0x00, 0x02, 0x01, 0x00]);
    assert!(matches!(job.next_action(), Action::Done));
}

#[test]
fn inter_packet_delay_emits_wait_between_rasters() {
    let bitmap = Bitmap::new(3);
    let mut job = PrintJob::new(&bitmap, 3, CHALLENGE, 15).unwrap();
    complete_handshake(&mut job);
    job.on_notification(Notification::AuthResult { ok: true });

    let _ = job.next_action(); // density
    let _ = job.next_action(); // start
    match job.next_action() {
        Action::Send(p) => assert_eq!(&p[..3], &[0x55, 0x00, 0x00]),
        other => panic!("expected raster 0, got {other:?}"),
    }
    assert!(matches!(job.next_action(), Action::WaitMs(15)));
    match job.next_action() {
        Action::Send(p) => assert_eq!(&p[..3], &[0x55, 0x00, 0x01]),
        other => panic!("expected raster 1, got {other:?}"),
    }
}
