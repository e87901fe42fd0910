//! Finding a printer, remembering it, and printing on it.

use printa_ble::config::{device_record, Config, SavedDevice};
use printa_ble::model::PrinterModel;
use printa_ble::protocol::job::JobStats;
use printa_ble::protocol::notifications::{Notification, Status};
use printa_ble::raster::Bitmap;
use printa_ble::service::{
    add_stats, exit_code, feed_px, printed_line, Failure, Order, PrintFlow, PrintOptions,
};
use printa_ble::transport::link::{
    answers_hello, check_status_support, find_channels, format_service_uuid, status_in,
    uuid_from_u16,
};
use printa_ble::transport::log::{Level, NoPaper, Setback};
use printa_ble::transport::pump::{silence_message, Next, Pump, X6Pump};
use printa_ble::transport::stall::STALL_TIMEOUT;
use printa_ble::transport::target::{
    driven_as, find_match, listing_order, match_target, resolve, supported, FallbackRank, Hunt, MatchKind, Seen,
    Target, Verdict,
};

/// The X6 feed command carries a u16; a CLI `--feed` beyond that must
/// saturate rather than wrap or panic (the CLI deliberately leaves
/// `feed` unbounded, unlike the server).
#[test]
fn feed_clamps_to_the_x6_command_range() {
    assert_eq!(feed_px(0), 0);
    assert_eq!(feed_px(320), 320);
    assert_eq!(feed_px(65_535), u16::MAX);
    assert_eq!(feed_px(65_536), u16::MAX);
    assert_eq!(feed_px(usize::MAX), u16::MAX);
}

/// A device whose name no model claims (reachable only via an explicit
/// `--device` filter) is driven as an LX-D02 by assumption — but that
/// guess must not be written to the config as fact. Saving
/// `model: "lx-d02"` would restrict the next flagless scan to LX-D02,
/// which the unclaimed name can never satisfy, making the saved device
/// permanently unreachable.
#[test]
fn an_unclaimed_name_is_remembered_without_a_model() {
    let record = device_record("aabbccdd".to_string(), "Oddball", None);
    assert_eq!(
        record,
        SavedDevice {
            id: "aabbccdd".to_string(),
            name: "Oddball".to_string(),
            model: None,
        }
    );
    assert_eq!(driven_as("Oddball"), PrinterModel::LxD02);
}

/// A detected model is still remembered, so a reconnect to a recognized
/// printer keeps restricting the scan to its family.
#[test]
fn a_detected_model_is_remembered() {
    let record = device_record("x6-id".to_string(), "X6h-A1B2", Some(PrinterModel::X6));
    assert_eq!(record.model.as_deref(), Some("x6"));
    let record = device_record("lx-id".to_string(), "LX-D02", Some(PrinterModel::LxD02));
    assert_eq!(record.model.as_deref(), Some("lx-d02"));
}

#[test]
fn remembering_tells_whether_anything_changed() {
    let mut config = Config::default();
    assert!(config.remember("id".to_string(), "LX-D02", Some(PrinterModel::LxD02)));
    assert!(!config.remember("id".to_string(), "LX-D02", Some(PrinterModel::LxD02)));
    assert!(config.remember("id".to_string(), "LX-D02 b", Some(PrinterModel::LxD02)));
    assert_eq!(config.device.unwrap().name, "LX-D02 b");
}

fn seen(name: Option<&str>, id: &str) -> Seen {
    Seen { name: name.map(str::to_string), id: id.to_string() }
}

fn saved() -> SavedDevice {
    device_record("saved-id".to_string(), "LX-D02", Some(PrinterModel::LxD02))
}

#[test]
fn an_explicit_filter_matches_names_and_ids() {
    let target = Target::Filter("odd".to_string());
    assert_eq!(match_target(&seen(Some("the odd one"), "x"), &target, None), Some(MatchKind::Exact));
    assert_eq!(match_target(&seen(Some("X6h-1"), "odd-1"), &target, None), Some(MatchKind::Exact));
    assert_eq!(match_target(&seen(Some("LX-D02"), "x"), &target, None), None);
    // A device without a name is never taken.
    assert_eq!(match_target(&seen(None, "odd-1"), &target, None), None);
}

#[test]
fn the_saved_device_has_fallbacks() {
    let search = resolve(None, Some(&saved()), None);
    assert_eq!(search.only, Some(PrinterModel::LxD02));
    let kind = |s: Seen| match_target(&s, &search.target, search.only);
    assert_eq!(kind(seen(Some("LX-D02"), "saved-id")), Some(MatchKind::Exact));
    assert_eq!(
        kind(seen(Some("LX-D02"), "other")),
        Some(MatchKind::Fallback(FallbackRank::SavedName))
    );
    assert_eq!(
        kind(seen(Some("LXP-42"), "other")),
        Some(MatchKind::Fallback(FallbackRank::AnySupported))
    );
    assert_eq!(kind(seen(Some("X6h-1"), "other")), None);
}

#[test]
fn flags_override_what_was_saved() {
    let search = resolve(Some("x"), Some(&saved()), None);
    assert!(matches!(search.target, Target::Filter(_)));
    assert_eq!(search.only, None);
    let search = resolve(None, Some(&saved()), Some(PrinterModel::X6));
    assert_eq!(search.only, Some(PrinterModel::X6));
    let mut odd = saved();
    odd.model = Some("gb01".to_string());
    let search = resolve(None, Some(&odd), None);
    assert_eq!(search.only, None);
    assert_eq!(search.unknown_model.as_deref(), Some("gb01"));
    assert_eq!(resolve(None, None, None).target.label(), "any supported printer");
    assert_eq!(resolve(None, Some(&saved()), None).target.label(), "saved device saved-id");
    assert_eq!(resolve(Some("x"), None, None).target.label(), "a device matching `x`");
}

#[test]
fn the_first_exact_match_is_found() {
    let all = vec![
        seen(Some("phone"), "a"),
        seen(Some("X6h-1"), "b"),
        seen(Some("LX-D02"), "c"),
    ];
    let (exact, fallback) = find_match(&all, &Target::AnySupported, None);
    assert_eq!((exact, fallback), (Some(1), None));
    let (exact, _) = find_match(&all, &Target::AnySupported, Some(PrinterModel::LxD02));
    assert_eq!(exact, Some(2));
    assert_eq!(supported(&all).len(), 2);
    assert_eq!(listing_order(&all), vec![1, 2, 0]);
    assert_eq!(listing_order(&vec![seen(None, "a")]), vec![0]);
}

#[test]
fn fallbacks_are_taken_at_the_deadline_only() {
    let mut hunt = Hunt::new(resolve(None, Some(&saved()), None));
    let other = vec![seen(Some("LXP-42"), "other")];
    assert!(matches!(hunt.step(&other, false), Verdict::KeepLooking));
    let namesake = vec![seen(Some("LXP-42"), "other"), seen(Some("LX-D02"), "namesake")];
    assert!(matches!(hunt.step(&namesake, false), Verdict::KeepLooking));
    // The better fallback is kept though it has gone out of sight.
    assert!(matches!(hunt.step(&other, true), Verdict::Take(s) if s.id == "namesake"));
    let back = vec![seen(Some("LX-D02"), "saved-id")];
    assert!(matches!(hunt.step(&back, false), Verdict::Take(s) if s.id == "saved-id"));
    let mut hunt = Hunt::new(resolve(None, None, None));
    assert!(matches!(hunt.step(&vec![], true), Verdict::NoPrinter));
}

#[test]
fn channels_are_found_among_the_characteristics() {
    let lx = [0x2A00, 0xFFE2, 0xFFE1].map(uuid_from_u16);
    assert_eq!(find_channels(&lx, PrinterModel::LxD02, "LX-D02"), Ok((2, 1)));
    assert_eq!(
        find_channels(&lx, PrinterModel::X6, "LX-D02").unwrap_err(),
        "LX-D02 has no 0xAE01 write characteristic — not a x6 printer?"
    );
    assert_eq!(
        find_channels(&lx[2..], PrinterModel::LxD02, "LX-D02").unwrap_err(),
        "LX-D02 has no 0xFFE2 notify characteristic — not a lx-d02 printer?"
    );
    assert_eq!(uuid_from_u16(0xFFE1), 0x0000FFE1_0000_1000_8000_00805F9B34FB);
}

fn healthy() -> Status {
    Status {
        battery_pct: 80,
        no_paper: false,
        charging: false,
        charged: false,
        overheat: false,
        low_battery: false,
        density: None,
        voltage_mv: None,
    }
}

#[test]
fn advertised_services_are_readable() {
    assert_eq!(format_service_uuid(&uuid_from_u16(0xAF30).to_be_bytes()), "0xAF30");
    assert_eq!(format_service_uuid(&uuid_from_u16(0x180A).to_be_bytes()), "0x180A");
    assert_eq!(
        format_service_uuid(&0xC0076683_6D1D_5981_7FD2_4292D76B7BD9u128.to_be_bytes()),
        "c0076683-6d1d-5981-7fd2-4292d76b7bd9"
    );
    // 32-bit identifiers have no short form here.
    assert_eq!(
        format_service_uuid(&(uuid_from_u16(0xAF30) + (1 << 112)).to_be_bytes()),
        "0001af30-0000-1000-8000-00805f9b34fb"
    );
}

#[test]
fn only_the_lx_has_a_status() {
    assert!(check_status_support(PrinterModel::LxD02).is_ok());
    assert_eq!(
        check_status_support(PrinterModel::X6).unwrap_err(),
        "status notifications are not supported on this printer model"
    );
}

#[test]
fn only_the_printer_itself_answers_a_hello() {
    assert!(answers_hello(&Notification::Hello { mac: [0; 6] }));
    assert!(!answers_hello(&Notification::Hold));
    assert_eq!(status_in(&Notification::Status(healthy())), Some(healthy()));
    assert_eq!(status_in(&Notification::Cooldown), None);
}

fn stats(packets_sent: u32, holds: u32) -> JobStats {
    JobStats { packets_sent, retransmits: 0, holds, cooldowns: 0 }
}

fn opts(feed: usize, copies: u16) -> PrintOptions {
    PrintOptions { density: 3, feed, copies }
}

#[test]
fn every_copy_is_printed_and_counted() {
    let flow = PrintFlow::new(Bitmap::new(10), opts(40, 2)).unwrap();
    let (flow, order) = flow.connected(PrinterModel::LxD02);
    assert!(matches!(order, Order::WaitStatus));
    let (flow, order, low) = flow.status(None);
    assert!(matches!(order, Order::RunCopy) && !low);
    assert!(flow.lx_job([0; 10]).is_ok());
    let (flow, order, said) = flow.copy_done(Ok(stats(25, 1)));
    assert!(matches!(order, Order::RunCopy));
    assert_eq!(said.as_deref(), Some("Printed copy 1/2."));
    let (flow, order, said) = flow.copy_done(Ok(stats(25, 2)));
    assert!(matches!(order, Order::Finish));
    assert_eq!(said.as_deref(), Some("Printed copy 2/2."));
    let outcome = flow.outcome(7);
    // The feed rows count on this model.
    assert_eq!((outcome.lines, outcome.elapsed), (100, 7));
    assert_eq!(outcome.stats, stats(50, 3));
}

#[test]
fn the_feed_does_not_count_on_an_x6() {
    let flow = PrintFlow::new(Bitmap::new(10), opts(40, 1)).unwrap();
    let (flow, order) = flow.connected(PrinterModel::X6);
    assert!(matches!(order, Order::RunCopy));
    assert_eq!(flow.model(), PrinterModel::X6);
    let _ = flow.x6_job();
    let (flow, order, said) = flow.copy_done(Ok(stats(11, 0)));
    assert!(matches!(order, Order::Finish) && said.is_none());
    assert_eq!(flow.outcome(0).lines, 10);
    assert_eq!(printed_line(1, 10).as_deref(), Some("Printed 10 lines."));
    assert_eq!(printed_line(2, 20), None);
}

#[test]
fn a_feed_without_end_is_cut_on_an_x6_and_refused_on_an_lx() {
    let flow = PrintFlow::new(Bitmap::new(1), opts(usize::MAX, 1)).unwrap();
    let (flow, order) = flow.connected(PrinterModel::X6);
    assert!(matches!(order, Order::RunCopy));
    let _ = flow.x6_job();
    let (flow, order, _) = flow.copy_done(Ok(stats(2, 0)));
    assert!(matches!(order, Order::Finish));
    assert_eq!(flow.outcome(0).lines, 1);

    let flow = PrintFlow::new(Bitmap::new(1), opts(usize::MAX, 1)).unwrap();
    let (_, order) = flow.connected(PrinterModel::LxD02);
    let packets = format!("print too large: {} ", usize::MAX / 2 + 1);
    assert!(matches!(order, Order::Abort(Failure::TooLarge(why)) if why.contains(&packets)));

    // The largest job that still fits, and the first that does not.
    let flow = PrintFlow::new(Bitmap::new(70), opts(131_000, 1)).unwrap();
    assert!(matches!(flow.connected(PrinterModel::LxD02).1, Order::WaitStatus));
    let flow = PrintFlow::new(Bitmap::new(70), opts(131_001, 1)).unwrap();
    assert!(matches!(flow.connected(PrinterModel::LxD02).1, Order::Abort(Failure::TooLarge(_))));
}

#[test]
fn prints_end_at_the_first_failure() {
    let e = PrintFlow::new(Bitmap::new(0), opts(40, 1)).unwrap_err();
    assert_eq!(e.message(), "nothing to print: bitmap is empty");

    let flow = PrintFlow::new(Bitmap::new(131_071), opts(0, 1)).unwrap();
    let (_, order) = flow.connected(PrinterModel::LxD02);
    assert!(matches!(order, Order::Abort(Failure::TooLarge(why)) if why.starts_with("cannot print this job: print too large")));

    let flow = PrintFlow::new(Bitmap::new(2), opts(0, 1)).unwrap();
    let (flow, _) = flow.connected(PrinterModel::LxD02);
    let mut empty = healthy();
    empty.no_paper = true;
    let (_, order, _) = flow.status(Some(empty));
    assert!(matches!(order, Order::Abort(Failure::NoPaper(NoPaper))));

    let flow = PrintFlow::new(Bitmap::new(2), opts(0, 3)).unwrap();
    let (flow, _) = flow.connected(PrinterModel::X6);
    let (_, order, said) = flow.copy_done(Err(Setback::Other("link lost".to_string())));
    assert!(said.is_none());
    assert!(matches!(order, Order::Abort(e) if e.message() == "print failed: link lost"));
}

#[test]
fn a_low_battery_is_mentioned() {
    let flow = PrintFlow::new(Bitmap::new(2), opts(0, 1)).unwrap();
    let (flow, _) = flow.connected(PrinterModel::LxD02);
    let mut low = healthy();
    low.low_battery = true;
    let (_, order, warn) = flow.status(Some(low));
    assert!(matches!(order, Order::RunCopy) && warn);
}

#[test]
fn counters_stay_at_the_top_of_their_range() {
    assert_eq!(add_stats(stats(u32::MAX, 1), stats(1, 1)), stats(u32::MAX, 2));
}

const SECOND: u64 = 1_000_000_000;

fn lx_pump() -> Pump {
    let flow = PrintFlow::new(Bitmap::new(2), opts(0, 1)).unwrap();
    let (flow, _) = flow.connected(PrinterModel::LxD02);
    let (flow, _, _) = flow.status(None);
    Pump::new(flow.lx_job([7; 10]).unwrap(), 0)
}

#[test]
fn a_job_is_pumped_to_its_end() {
    let mut pump = lx_pump();
    let feed = |pump: &mut Pump, n: Notification| assert!(pump.on_notification(n, 0).1.is_ok());
    assert!(matches!(pump.step(0).0, Next::Write(b) if b[..2] == [0x5A, 0x01]));
    assert!(matches!(pump.step(0).0, Next::Await));
    feed(&mut pump, Notification::Hello { mac: [1; 6] });
    assert!(matches!(pump.step(0).0, Next::Write(_)));
    feed(&mut pump, Notification::AuthChallengeReply);
    assert!(matches!(pump.step(0).0, Next::Write(_)));
    feed(&mut pump, Notification::AuthResult { ok: true });
    assert!(matches!(pump.step(0).0, Next::Write(b) if b[..2] == [0x5A, 0x0C]));
    assert!(matches!(pump.step(0).0, Next::Write(b) if b[..2] == [0x5A, 0x04]));
    assert!(matches!(pump.step(0).0, Next::Write(b) if b[0] == 0x55));
    feed(&mut pump, Notification::Finished { num_packets: 1 });
    assert!(matches!(pump.step(0).0, Next::Write(b) if b[4] == 0x01));
    assert!(matches!(pump.step(0).0, Next::Finished));
    let (result, line) = pump.finish(None, 2 * SECOND);
    assert_eq!(result.unwrap().packets_sent, 1);
    assert!(matches!(line.level, Level::Info));
    assert_eq!(line.text, "print job finished: 2.0s, 1 packets sent");
}

#[test]
fn a_job_that_does_not_move_is_given_up() {
    let mut pump = lx_pump();
    assert!(matches!(pump.step(0).0, Next::Write(_)));
    // Heartbeats keep coming, but they move nothing.
    for i in 1..60 {
        assert!(pump.on_notification(Notification::Status(healthy()), i * SECOND).1.is_ok());
        assert!(matches!(pump.step(i * SECOND).0, Next::Await));
    }
    let (next, lines) = pump.step(STALL_TIMEOUT);
    assert!(matches!(next, Next::Stalled(_)));
    assert_eq!(lines[0].text, "printer stalled for 60.0s; abandoning the job");
    let (result, line) = pump.finish(Some(Setback::Other("stalled".to_string())), STALL_TIMEOUT);
    assert_eq!(result.unwrap_err().message(), "stalled");
    assert_eq!(line.text, "print job aborted after 60.0s, 0 packets sent: stalled");
}

#[test]
fn running_out_of_paper_ends_a_job() {
    let mut pump = lx_pump();
    let mut empty = healthy();
    empty.no_paper = true;
    let paper = pump.on_notification(Notification::Status(empty), 0).1.unwrap_err();
    let (result, line) = pump.finish(Some(Setback::NoPaper(paper)), SECOND);
    assert_eq!(line.text, "print job aborted after 1.0s, 0 packets sent: printer is out of paper");
    let flow = PrintFlow::new(Bitmap::new(2), opts(0, 3)).unwrap();
    let (flow, _) = flow.connected(PrinterModel::LxD02);
    let (flow, _, _) = flow.status(None);
    let (_, order, _) = flow.copy_done(result);
    assert!(matches!(order, Order::Abort(e) if exit_code(&e) == 3));
}

#[test]
fn a_rejected_printer_fails_its_job() {
    let mut pump = lx_pump();
    for n in [
        Notification::Hello { mac: [1; 6] },
        Notification::AuthChallengeReply,
        Notification::AuthResult { ok: false },
    ] {
        let _ = pump.step(0);
        assert!(pump.on_notification(n, 0).1.is_ok());
    }
    assert!(matches!(pump.step(0).0, Next::Finished));
    let (result, _) = pump.finish(None, 0);
    assert!(result.unwrap_err().message().contains("auth"));
}

#[test]
fn an_x6_job_is_pumped_to_its_end() {
    let flow = PrintFlow::new(Bitmap::new(2), opts(40, 1)).unwrap();
    let (flow, _) = flow.connected(PrinterModel::X6);
    let mut pump = X6Pump::new(flow.x6_job(), 0);
    let mut writes = 0;
    loop {
        match pump.step(0).0 {
            Next::Write(_) => writes += 1,
            Next::Sleep(_) => {}
            Next::Finished => break,
            other => panic!("unexpected {other:?}"),
        }
    }
    // Three setup frames, the blank lead row, two rows and the feed.
    assert_eq!(writes, 7);
    let (result, _) = pump.finish(None, 0);
    assert_eq!(result.unwrap().packets_sent, 3);
}

#[test]
fn silence_is_told_apart_from_a_stall() {
    assert_eq!(silence_message(), "printer went silent (no BLE notification at all for 10s)");
}
