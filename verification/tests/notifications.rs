//! Frames from the printers.

use printa_ble::protocol::notifications::{parse, Notification, Status};
use printa_ble::protocol_x6::notifications::{parse as parse_x6, X6Notification};

#[test]
fn parses_hello_reply_mac() {
    let n = [0x5A, 0x01, 0, 0, 0xAA, 0xBB, 0xCC, 0x11, 0x22, 0x33, 0, 0];
    assert_eq!(
        parse(&n),
        Some(Notification::Hello {
            mac: [0xAA, 0xBB, 0xCC, 0x11, 0x22, 0x33]
        })
    );
}

#[test]
fn parses_status() {
    // battery 80%, no_paper, charging, overheat=0, low_batt=0, density 3
    let n = [0x5A, 0x02, 80, 1, 1, 0, 0, 3, 0x0F, 0xA0];
    assert_eq!(
        parse(&n),
        Some(Notification::Status(Status {
            battery_pct: 80,
            no_paper: true,
            charging: true,
            charged: false,
            overheat: false,
            low_battery: false,
            density: Some(3),
            voltage_mv: Some(4000),
        }))
    );
}

#[test]
fn parses_short_status_without_extended_fields() {
    let n = [0x5A, 0x02, 55, 0, 2];
    let parsed = parse(&n);
    match parsed {
        Some(Notification::Status(s)) => {
            assert_eq!(s.battery_pct, 55);
            assert!(!s.no_paper);
            assert!(s.charged);
            assert_eq!(s.density, None);
        }
        other => panic!("unexpected: {other:?}"),
    }
}

#[test]
fn parses_flow_control() {
    assert_eq!(
        parse(&[0x5A, 0x05, 0x01, 0x40]),
        Some(Notification::LostPacket { index: 0x0140 })
    );
    assert_eq!(
        parse(&[0x5A, 0x06, 0x01, 0x40]),
        Some(Notification::Finished {
            num_packets: 0x0140
        })
    );
    assert_eq!(parse(&[0x5A, 0x07]), Some(Notification::Cooldown));
    assert_eq!(parse(&[0x5A, 0x08]), Some(Notification::Hold));
}

#[test]
fn parses_auth_results() {
    assert_eq!(
        parse(&[0x5A, 0x0B, 0x01]),
        Some(Notification::AuthResult { ok: true })
    );
    assert_eq!(
        parse(&[0x5A, 0x0B, 0x00]),
        Some(Notification::AuthResult { ok: false })
    );
    // 5A 0A reply payload is unused garbage; still recognized
    let n = [0x5A, 0x0A, 1, 2, 3, 4, 5, 6, 7, 8, 9, 10];
    assert_eq!(parse(&n), Some(Notification::AuthChallengeReply));
}

#[test]
fn unknown_or_short_returns_none() {
    assert_eq!(parse(&[0x5A]), None);
    assert_eq!(parse(&[0x42, 0x00]), None);
}

#[test]
fn truncated_guarded_variants_return_none() {
    assert_eq!(parse(&[]), None);
    assert_eq!(parse(&[0x5A, 0x02, 80]), None); // status needs >= 5 bytes
    assert_eq!(parse(&[0x5A, 0x05, 0x01]), None); // lost-packet needs >= 4 bytes
    assert_eq!(parse(&[0x5A, 0x0B]), None); // auth result needs >= 3 bytes
}

/// The two flow-control frames as captured (verbatim hex).
#[test]
fn parses_captured_status_frames() {
    let full = [0x51, 0x78, 0xAE, 0x01, 0x01, 0x00, 0x10, 0x70, 0xFF];
    let ready = [0x51, 0x78, 0xAE, 0x01, 0x01, 0x00, 0x00, 0x00, 0xFF];
    assert_eq!(parse_x6(&full), Some(X6Notification::BufferFull));
    assert_eq!(parse_x6(&ready), Some(X6Notification::Ready));
}

#[test]
fn rejects_wrong_magic_direction_or_command() {
    // wrong magic
    assert_eq!(
        parse_x6(&[0x5A, 0x78, 0xAE, 0x01, 0x01, 0x00, 0x10, 0x70, 0xFF]),
        None
    );
    // host->printer direction byte
    assert_eq!(
        parse_x6(&[0x51, 0x78, 0xAE, 0x00, 0x01, 0x00, 0x10, 0x70, 0xFF]),
        None
    );
    // unknown command id: not ours to interpret
    assert_eq!(
        parse_x6(&[0x51, 0x78, 0xBA, 0x01, 0x01, 0x00, 0x63, 0x00, 0xFF]),
        None
    );
    // unknown status payload value
    assert_eq!(
        parse_x6(&[0x51, 0x78, 0xAE, 0x01, 0x01, 0x00, 0x42, 0x00, 0xFF]),
        None
    );
}

#[test]
fn rejects_truncated_frames() {
    assert_eq!(parse_x6(&[]), None);
    assert_eq!(parse_x6(&[0x51]), None);
    assert_eq!(parse_x6(&[0x51, 0x78, 0xAE, 0x01, 0x01, 0x00]), None);
}
