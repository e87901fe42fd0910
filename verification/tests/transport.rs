//! Labels, pause accounting, stall detection.

use printa_ble::protocol::job::{Action, JobStats, PrintJob};
use printa_ble::protocol::notifications::{self, Notification};
use printa_ble::protocol::packets;
use printa_ble::raster::Bitmap;
use printa_ble::transport::labels::{describe_write, hex, is_raster};
use printa_ble::transport::log::{job_summary, JobLog, COOLDOWN_REPORT_GAP};
use printa_ble::transport::stall::{stall_message, Progress, StallGuard, STALL_TIMEOUT};

/// One second on the clock, which counts nanoseconds.
const SECOND: u64 = 1_000_000_000;

/// When the clock was looked at first.
const START: u64 = 12_345_678_901;

fn secs(n: u64) -> u64 {
    n * SECOND
}

fn millis(n: u64) -> u64 {
    n * 1_000_000
}

#[test]
fn hex_is_lowercase_and_unpadded() {
    assert_eq!(hex(&[0x5A, 0x08]), "5a08");
    assert_eq!(hex(&[0x00, 0xff]), "00ff");
    assert_eq!(hex(&[]), "");
}

/// The point of the labels: a raster packet is identified by index, never
/// by dumping its 96 bytes of pixels into the log.
#[test]
fn raster_writes_are_labelled_by_index_not_payload() {
    let frame = packets::raster(0x0142, &[0xFF; packets::RASTER_DATA_LEN]);
    let label = describe_write(&frame);
    assert_eq!(label, "raster idx=322");
    assert!(!label.contains("ff"), "payload leaked into the label");
    assert!(is_raster(&frame));
}

#[test]
fn control_writes_are_named() {
    assert_eq!(describe_write(&packets::hello()), "hello");
    assert_eq!(describe_write(&packets::set_density(5)), "set density 5");
    assert_eq!(
        describe_write(&packets::auth_challenge(&[0; 10])),
        "auth challenge"
    );
    assert_eq!(
        describe_write(&packets::auth_reply(&[0; 10])),
        "auth response"
    );
    assert_eq!(
        describe_write(&packets::print_start(7)),
        "print start (7 packets)"
    );
    assert_eq!(
        describe_write(&packets::print_end(7)),
        "print end (7 packets)"
    );
    for frame in [
        packets::hello().as_slice(),
        packets::print_start(7).as_slice(),
    ] {
        assert!(!is_raster(frame));
    }
}

#[test]
fn unknown_writes_fall_back_to_hex() {
    assert_eq!(describe_write(&[0x99, 0x01]), "unknown frame 9901");
    assert_eq!(describe_write(&[]), "unknown frame ");
}

/// A clean job says only what happened; no flow-control noise.
#[test]
fn summary_omits_flow_control_when_there_was_none() {
    let stats = JobStats {
        packets_sent: 208,
        ..JobStats::default()
    };
    assert_eq!(
        job_summary(millis(4100), 0, stats),
        "4.1s, 208 packets sent"
    );
}

/// The line that answers "why did it stall".
#[test]
fn summary_reports_every_flow_control_event() {
    let stats = JobStats {
        packets_sent: 812,
        retransmits: 2,
        holds: 3,
        cooldowns: 17,
    };
    let s = job_summary(
        millis(41_200),
        millis(28_400),
        stats,
    );
    assert_eq!(
        s,
        "41.2s, 812 packets sent, 3 holds, 17 cooldowns, 2 resends, \
         28.4s paused for thermal flow control"
    );
}

/// A resend with no pause behind it is a dropped packet, not overheating,
/// so the paused time is left out.
#[test]
fn summary_omits_paused_time_without_holds_or_cooldowns() {
    let stats = JobStats {
        packets_sent: 10,
        retransmits: 1,
        ..JobStats::default()
    };
    let s = job_summary(secs(1), 0, stats);
    assert_eq!(s, "1.0s, 10 packets sent, 1 resends");
    assert!(!s.contains("paused"));
}

#[test]
fn pause_accounting_measures_one_window() {
    let mut log = JobLog::default();
    let t0 = START;
    log.pause(t0);
    let held = log.resume(t0 + secs(3)).unwrap();
    assert_eq!(held, secs(3));
    assert_eq!(log.paused_total(t0 + secs(9)), held);
}

/// Hold then Cooldown is one pause, not two: the second event arrives
/// while we are already stopped and must not restart the clock.
#[test]
fn overlapping_pauses_do_not_restart_the_clock() {
    let mut log = JobLog::default();
    let t0 = START;
    log.pause(t0);
    log.pause(t0 + secs(2));
    assert_eq!(
        log.resume(t0 + secs(3)).unwrap(),
        secs(3)
    );
}

#[test]
fn pauses_accumulate_across_windows() {
    let mut log = JobLog::default();
    let t0 = START;
    log.pause(t0);
    log.resume(t0 + secs(2));
    log.pause(t0 + secs(5));
    log.resume(t0 + secs(9));
    assert_eq!(log.paused_total(t0), secs(6));
}

/// The summary must be honest about a job that is still stopped: an open
/// pause window counts toward the total.
#[test]
fn open_pause_window_counts_toward_the_total() {
    let mut log = JobLog::default();
    let t0 = START;
    log.pause(t0);
    assert_eq!(
        log.paused_total(t0 + secs(4)),
        secs(4)
    );
}

#[test]
fn resume_without_a_pause_is_a_no_op() {
    let mut log = JobLog::default();
    let t0 = START;
    assert!(log.resume(t0).is_none());
    assert_eq!(log.paused_total(t0), 0);
}

// -----------------------------------------------------------------
// Stall detection.
// -----------------------------------------------------------------

/// The printer's periodic unsolicited heartbeat: `5A 02`, battery 80%,
/// paper present. Enough of these keep [`NOTIFICATION_TIMEOUT`] happy
/// forever without the job moving an inch.
fn heartbeat() -> Notification {
    notifications::parse(&[0x5A, 0x02, 80, 0, 0]).expect("valid status frame")
}

/// A four-packet job that has authenticated and streamed its first
/// raster packet.
fn streaming_job() -> PrintJob {
    let bitmap = Bitmap::new(8);
    let mut job = PrintJob::new(&bitmap, 3, [7u8; 10], 0).unwrap();
    let _ = job.next_action(); // hello
    job.on_notification(Notification::Hello {
        mac: [1, 2, 3, 4, 5, 6],
    });
    let _ = job.next_action(); // auth challenge
    job.on_notification(Notification::AuthChallengeReply);
    let _ = job.next_action(); // auth response
    job.on_notification(Notification::AuthResult { ok: true });
    let _ = job.next_action(); // density
    let _ = job.next_action(); // print start
    let _ = job.next_action(); // raster 0
    job
}

#[test]
fn a_job_that_just_started_is_not_stalled() {
    let job = streaming_job();
    let t0 = START;
    let mut stall = StallGuard::new(t0, Progress::of(&job));
    assert_eq!(stall.observe(t0, Progress::of(&job)), 0);
}

/// Every raster packet written restarts the clock, so a slow but moving
/// print never trips the guard however long it runs.
#[test]
fn a_printer_taking_packets_never_stalls() {
    let mut job = streaming_job();
    let t0 = START;
    let mut stall = StallGuard::new(t0, Progress::of(&job));

    // One packet every 59s — glacial, but never a stall.
    for i in 1..=3 {
        let _ = job.next_action(); // raster i
        let idle = stall.observe(
            t0 + secs(i * ((STALL_TIMEOUT / SECOND) - 1)),
            Progress::of(&job),
        );
        assert!(idle < STALL_TIMEOUT, "iteration {i} idle for {idle:?}");
    }
}

/// The bug, in one test: the printer holds, then keeps the radio busy
/// with heartbeats and cooldowns while never accepting another packet.
/// `NOTIFICATION_TIMEOUT` is satisfied by every one of those frames, so
/// only a progress deadline can end this.
#[test]
fn a_held_printer_that_keeps_talking_is_still_stalled() {
    let mut job = streaming_job();
    job.on_notification(Notification::Hold);
    assert!(matches!(job.next_action(), Action::WaitNotification));

    let t0 = START;
    let mut stall = StallGuard::new(t0, Progress::of(&job));
    let mut idle: u64 = 0;
    for i in 1..=(STALL_TIMEOUT / SECOND) {
        job.on_notification(heartbeat());
        job.on_notification(Notification::Cooldown);
        let _ = job.next_action();
        idle = stall.observe(t0 + secs(i), Progress::of(&job));
    }
    assert!(idle >= STALL_TIMEOUT, "idle only {idle:?}");
}

/// Same trap one state later: every packet is out and the printer never
/// says `Finished`, but the heartbeats keep coming.
#[test]
fn a_printer_that_never_finishes_is_stalled() {
    let mut job = streaming_job();
    while let Action::Send(_) | Action::WaitMs(_) = job.next_action() {}

    let t0 = START;
    let mut stall = StallGuard::new(t0, Progress::of(&job));
    let mut idle: u64 = 0;
    for i in 1..=(STALL_TIMEOUT / SECOND) {
        job.on_notification(heartbeat());
        let _ = job.next_action();
        idle = stall.observe(t0 + secs(i), Progress::of(&job));
    }
    assert!(idle >= STALL_TIMEOUT, "idle only {idle:?}");
}

/// A hold the printer actually comes back from must clear the clock, or
/// a long healthy print would abort on its accumulated pauses.
#[test]
fn resuming_from_a_hold_clears_the_stall_clock() {
    let mut job = streaming_job();
    job.on_notification(Notification::Hold);

    let t0 = START;
    let mut stall = StallGuard::new(t0, Progress::of(&job));
    let almost = STALL_TIMEOUT - secs(1);
    assert!(stall.observe(t0 + almost, Progress::of(&job)) < STALL_TIMEOUT);

    // The printer asks for a resend, which is how a hold ends.
    job.on_notification(Notification::LostPacket { index: 1 });
    let _ = job.next_action(); // raster 0 again
    assert_eq!(
        stall.observe(t0 + almost, Progress::of(&job)),
        0
    );
}

/// Flow-control counters are deliberately not progress: a printer can
/// emit `Cooldown` forever without taking a single byte of raster.
#[test]
fn flow_control_counters_are_not_treated_as_progress() {
    let mut job = streaming_job();
    job.on_notification(Notification::Hold);
    let before = Progress::of(&job);
    for _ in 0..50 {
        job.on_notification(Notification::Cooldown);
    }
    job.on_notification(Notification::Hold);
    assert!(job.stats().cooldowns > 0 || job.stats().holds > 0);
    assert_eq!(Progress::of(&job), before);
}

/// The actionable case: the printer paused for heat and never came back.
#[test]
fn stall_after_thermal_flow_control_suggests_a_lower_density() {
    let msg = stall_message(secs(61), secs(58));
    assert!(msg.contains("61.0s"), "{msg}");
    assert!(msg.contains("58.0s"), "{msg}");
    assert!(msg.contains("--density"), "{msg}");
}

/// A stall with no pause behind it is not overheating, and must not say
/// it is — the user would go chasing the wrong setting.
#[test]
fn stall_without_flow_control_does_not_blame_the_print_head() {
    let msg = stall_message(secs(60), 0);
    assert!(msg.contains("60.0s"), "{msg}");
    assert!(!msg.contains("overheating"), "{msg}");
    assert!(!msg.contains("--density"), "{msg}");
}

/// Total radio silence and a talkative stall are different faults, and
/// the two messages must not be mistaken for one another.
#[test]
fn stall_and_silence_read_differently() {
    let stall = stall_message(secs(60), secs(60));
    assert!(stall.contains("stalled"), "{stall}");
    assert!(!stall.contains("silent"), "{stall}");
}

/// A printer running hot cooldowns on every packet; the log must report
/// the condition without one line per packet.
#[test]
fn cooldown_reports_are_rate_limited_and_count_the_gap() {
    let mut log = JobLog::default();
    let t0 = START;

    assert_eq!(log.note_cooldown(t0), Some(1));
    // Nine more inside the window: silent, but counted.
    for i in 1..10 {
        assert_eq!(log.note_cooldown(t0 + millis(i * 10)), None);
    }
    // Once the gap elapses, the suppressed ones are reported together.
    assert_eq!(log.note_cooldown(t0 + COOLDOWN_REPORT_GAP), Some(10));
    assert_eq!(log.note_cooldown(t0 + COOLDOWN_REPORT_GAP), None);
}
