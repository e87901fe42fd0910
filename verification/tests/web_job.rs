//! The job bridge of the web page, for the LX-D02.

use printa_ble::protocol::auth::auth_response;
use printa_ble::protocol::packets;
use printa_ble::raster::Bitmap;
use printa_ble::web::{ActionMsg, WasmBitmap, WasmJob};

const CHALLENGE: [u8; 10] = [9u8; 10];
const MAC: [u8; 6] = [1, 2, 3, 4, 5, 6];
/// Hello reply carrying `MAC` at bytes 4..10.
const HELLO_REPLY: [u8; 12] = [0x5A, 0x01, 0, 0, 1, 2, 3, 4, 5, 6, 0, 0];
const CHALLENGE_REPLY: [u8; 2] = [0x5A, 0x0A];
const AUTH_OK: [u8; 3] = [0x5A, 0x0B, 0x01];
const AUTH_FAIL: [u8; 3] = [0x5A, 0x0B, 0x00];
/// Finished, num_packets = 2.
const FINISHED: [u8; 4] = [0x5A, 0x06, 0x00, 0x02];

/// A 3-row bitmap job (=> 2 raster packets of 2 rows each).
fn three_row_job() -> WasmJob {
    let bitmap = WasmBitmap {
        inner: Bitmap::new(3),
    };
    WasmJob::new(&bitmap, 3, &CHALLENGE).unwrap()
}

/// Pull actions until the job blocks on a notification (or is done),
/// returning everything emitted including the terminator.
fn drain(job: &mut WasmJob) -> Vec<ActionMsg> {
    let mut actions = vec![];
    loop {
        let a = job.next_action_inner();
        let stop = matches!(a, ActionMsg::WaitNotification | ActionMsg::Done);
        actions.push(a);
        if stop {
            return actions;
        }
    }
}

fn sent_bytes(actions: &[ActionMsg]) -> Vec<&[u8]> {
    actions
        .iter()
        .filter_map(|a| match a {
            ActionMsg::Send { bytes } => Some(bytes.as_slice()),
            _ => None,
        })
        .collect()
}

#[test]
fn happy_path_kinds() {
    let mut job = three_row_job();

    // Hello, then block for the reply.
    let actions = drain(&mut job);
    let sends = sent_bytes(&actions);
    assert_eq!(sends.len(), 1);
    assert_eq!(&sends[0][..2], [0x5A, 0x01]);
    assert!(matches!(actions.last(), Some(ActionMsg::WaitNotification)));

    job.on_notification(&HELLO_REPLY);
    let actions = drain(&mut job); // auth challenge
    assert_eq!(&sent_bytes(&actions)[0][..2], [0x5A, 0x0A]);

    job.on_notification(&CHALLENGE_REPLY);
    let actions = drain(&mut job); // auth response
    let sends = sent_bytes(&actions);
    assert_eq!(&sends[0][..2], [0x5A, 0x0B]);
    // Full auth response must match the core's computation for the
    // challenge and the MAC learned from the hello reply.
    let expected = packets::auth_reply(&auth_response(&CHALLENGE, &MAC));
    assert_eq!(sends[0], expected);

    job.on_notification(&AUTH_OK);
    let actions = drain(&mut job);
    let sends = sent_bytes(&actions);
    // density, start, two raster packets — then wait for Finished
    assert_eq!(sends.len(), 4);
    assert_eq!(&sends[0][..2], [0x5A, 0x0C]);
    assert_eq!(&sends[1][..4], [0x5A, 0x04, 0x00, 0x02]);
    assert_eq!(sends[2][0], 0x55);
    assert_eq!(sends[3][0], 0x55);
    assert!(matches!(actions.last(), Some(ActionMsg::WaitNotification)));

    job.on_notification(&FINISHED);
    let actions = drain(&mut job); // print end, then done
    assert_eq!(
        sent_bytes(&actions)[0],
        [0x5A, 0x04, 0x00, 0x02, 0x01, 0x00]
    );
    assert!(matches!(actions.last(), Some(ActionMsg::Done)));
    assert_eq!(job.error(), None);
}

#[test]
fn wait_ms_between_rasters() {
    let mut job = three_row_job();
    drain(&mut job);
    job.on_notification(&HELLO_REPLY);
    drain(&mut job);
    job.on_notification(&CHALLENGE_REPLY);
    drain(&mut job);
    job.on_notification(&AUTH_OK);

    let actions = drain(&mut job);
    // raster 0, WaitMs(15), raster 1
    let raster_start = actions
        .iter()
        .position(|a| matches!(a, ActionMsg::Send { bytes } if bytes[0] == 0x55))
        .unwrap();
    assert_eq!(actions[raster_start + 1], ActionMsg::WaitMs { ms: 15 });
    assert!(
        matches!(&actions[raster_start + 2], ActionMsg::Send { bytes } if bytes[0] == 0x55)
    );
}

#[test]
fn bad_challenge_len_errors() {
    let bitmap = WasmBitmap {
        inner: Bitmap::new(3),
    };
    for len in [9, 11] {
        let err = WasmJob::new(&bitmap, 3, &vec![0u8; len]).unwrap_err();
        assert!(err.contains("challenge"), "unexpected message: {err}");
    }
}

#[test]
fn job_bad_density_errors() {
    let bitmap = WasmBitmap {
        inner: Bitmap::new(3),
    };
    for density in [0, 8] {
        let err = WasmJob::new(&bitmap, density, &CHALLENGE).unwrap_err();
        assert!(err.contains("density"), "unexpected message: {err}");
    }
}

#[test]
fn job_empty_bitmap_errors() {
    let bitmap = WasmBitmap {
        inner: Bitmap::new(0),
    };
    let err = WasmJob::new(&bitmap, 3, &CHALLENGE).unwrap_err();
    assert!(
        err.contains("nothing to print"),
        "unexpected message: {err}"
    );
}

#[test]
fn auth_fail_sets_error() {
    let mut job = three_row_job();
    drain(&mut job);
    job.on_notification(&HELLO_REPLY);
    drain(&mut job);
    job.on_notification(&CHALLENGE_REPLY);
    drain(&mut job);
    job.on_notification(&AUTH_FAIL);

    assert!(matches!(job.next_action_inner(), ActionMsg::Done));
    let err = job.error().unwrap();
    assert!(err.contains("auth"), "unexpected message: {err}");
}

#[test]
fn unparseable_notification_ignored() {
    let mut job = three_row_job();
    drain(&mut job);

    // Garbage mid-stream: wrong magic, truncated frames, empty.
    job.on_notification(&[0x42, 0x00, 0x01]);
    job.on_notification(&[0x5A]);
    job.on_notification(&[]);

    // Still cleanly waiting for the hello reply, and the real one works.
    assert!(matches!(
        job.next_action_inner(),
        ActionMsg::WaitNotification
    ));
    job.on_notification(&HELLO_REPLY);
    let actions = drain(&mut job);
    assert_eq!(&sent_bytes(&actions)[0][..2], [0x5A, 0x0A]);
    assert_eq!(job.error(), None);
}
