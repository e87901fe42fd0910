//! The job bridge of the web page, for the X6.

use printa_ble::raster::Bitmap;
use printa_ble::web::{ActionMsg, WasmBitmap, WasmX6Job};

/// The two 0xAE02 flow-control frames as captured from hardware
/// (verbatim hex) — the same bytes core's notification
/// parser tests pin.
const BUFFER_FULL: [u8; 9] = [0x51, 0x78, 0xAE, 0x01, 0x01, 0x00, 0x10, 0x70, 0xFF];
const READY: [u8; 9] = [0x51, 0x78, 0xAE, 0x01, 0x01, 0x00, 0x00, 0x00, 0xFF];

/// A 2-row bitmap job at density 3 with a 64 px trailing feed.
fn two_row_job() -> WasmX6Job {
    let bitmap = WasmBitmap {
        inner: Bitmap::new(2),
    };
    WasmX6Job::new(&bitmap, 3, 64).unwrap()
}

/// Pull sends until the job has streamed its speed/energy setup frames
/// and the blank lead row, leaving it mid-scanline where flow control
/// applies.
fn past_setup_and_lead(job: &mut WasmX6Job) {
    for _ in 0..4 {
        assert!(matches!(job.next_action_inner(), ActionMsg::Send { .. }));
    }
}

/// Pull actions until the job blocks on a notification (or is done),
/// returning everything emitted including the terminator.
fn drain(job: &mut WasmX6Job) -> Vec<ActionMsg> {
    let mut actions = vec![];
    loop {
        let a = job.next_action_inner();
        let stop = matches!(a, ActionMsg::WaitNotification | ActionMsg::Done);
        actions.push(a);
        if stop {
            return actions;
        }
    }
}

fn sent_bytes(actions: &[ActionMsg]) -> Vec<&[u8]> {
    actions
        .iter()
        .filter_map(|a| match a {
            ActionMsg::Send { bytes } => Some(bytes.as_slice()),
            _ => None,
        })
        .collect()
}

#[test]
fn happy_path_streams_scanlines_feed_settle_done() {
    let mut job = two_row_job();

    // No hello/auth: the job runs to done without ever needing a
    // notification.
    let actions = drain(&mut job);
    let sends = sent_bytes(&actions);

    // Speed and energy setup frames, blank artifact-guard lead row + 2
    // bitmap rows, then the feed.
    assert_eq!(sends.len(), 7);
    assert_eq!(&sends[0][..3], [0x51, 0x78, 0xBD]);
    assert_eq!(sends[0][6], 16); // density 3 = divisor 16
    assert_eq!(&sends[1][..3], [0x51, 0x78, 0xAF]);
    assert_eq!(&sends[1][6..8], [0xC0, 0x5D]); // density 3 = 24000 LE
    assert_eq!(&sends[2][..3], [0x51, 0x78, 0xBE]);
    for (i, send) in sends[3..6].iter().enumerate() {
        assert_eq!(&send[..3], [0x51, 0x78, 0xA2], "scanline {i}");
    }
    assert_eq!(&sends[6][..3], [0x51, 0x78, 0xA1]);

    // ... then a settle wait, then done.
    let n = actions.len();
    assert!(matches!(actions[n - 2], ActionMsg::WaitMs { .. }));
    assert!(matches!(actions[n - 1], ActionMsg::Done));
    assert_eq!(job.error(), None);
}

#[test]
fn inter_packet_delay_matches_the_lx_wrapper() {
    let mut job = two_row_job();
    let actions = drain(&mut job);
    assert!(
        actions.contains(&ActionMsg::WaitMs { ms: 15 }),
        "expected a 15 ms inter-scanline delay in {actions:?}"
    );
}

#[test]
fn x6job_empty_bitmap_errors() {
    let bitmap = WasmBitmap {
        inner: Bitmap::new(0),
    };
    let err = WasmX6Job::new(&bitmap, 3, 64).unwrap_err();
    assert_eq!(err, "nothing to print: bitmap is empty");
}

/// Same message as WasmJob's density check.
#[test]
fn x6job_bad_density_errors() {
    let bitmap = WasmBitmap {
        inner: Bitmap::new(2),
    };
    for density in [0, 8] {
        let err = WasmX6Job::new(&bitmap, density, 64).unwrap_err();
        assert_eq!(err, format!("density must be 1-7, got {density}"));
    }
}

#[test]
fn buffer_full_pauses_and_ready_resumes() {
    let mut job = two_row_job();

    // Stream up to the lead row, then the printer reports BufferFull.
    past_setup_and_lead(&mut job);
    job.on_notification(&BUFFER_FULL);
    assert!(matches!(
        job.next_action_inner(),
        ActionMsg::WaitNotification
    ));
    assert!(matches!(
        job.next_action_inner(),
        ActionMsg::WaitNotification
    ));

    // Ready resumes streaming scanlines...
    job.on_notification(&READY);
    match job.next_action_inner() {
        ActionMsg::Send { bytes } => assert_eq!(&bytes[..3], [0x51, 0x78, 0xA2]),
        other => panic!("expected resumed scanline, got {other:?}"),
    }

    // ... and the job still runs to completion.
    let actions = drain(&mut job);
    assert!(matches!(actions.last(), Some(ActionMsg::Done)));
    assert_eq!(job.error(), None);
}

#[test]
fn garbage_notifications_ignored() {
    let mut job = two_row_job();
    past_setup_and_lead(&mut job);
    job.on_notification(&BUFFER_FULL);

    // Garbage while paused: wrong magic, truncated frames, empty.
    job.on_notification(&[0x42, 0x00, 0x01]);
    job.on_notification(&[0x51]);
    job.on_notification(&[]);

    // Still cleanly paused, and the real Ready works.
    assert!(matches!(
        job.next_action_inner(),
        ActionMsg::WaitNotification
    ));
    job.on_notification(&READY);
    assert!(matches!(job.next_action_inner(), ActionMsg::Send { .. }));
}
