//! The command line: verbosity, sources, tables, exit codes.

use printa_ble::cli::{
    advertiser_row, build_bitmap_from, extension, is_stdin_path, log_filter, scan_head, scan_row,
    status_lines, DitherArg, Source,
};
use printa_ble::model::PrinterModel;
use printa_ble::protocol::notifications::Status;
use printa_ble::raster::Dither;
use printa_ble::service::{
    exit_code, Failure, NoPrinterFound, PrintFailure, PrinterNotResponding,
};
use printa_ble::transport::log::{NoPaper, Setback};
use printa_ble::url::{is_http, validate_url};
use std::sync::{Arc, Mutex};
use tracing::callsite::Callsite;
use tracing::field::{FieldSet, Value};
use tracing::subscriber::Interest;
use tracing::{Event, Level, Metadata};

/// No flag must stay silent about everything but our own warnings: the
/// CLI's default output is load-bearing (scripts read the preview path off
/// stdout) and a dependency's alarming-but-harmless ERROR is not ours to
/// show.
#[test]
fn default_verbosity_covers_this_crate_only() {
    assert_eq!(log_filter(0), "printable=warn");
}

#[test]
fn verbosity_ladder_increases_this_crate_first() {
    assert_eq!(log_filter(1), "printable=info");
    assert_eq!(log_filter(2), "printable=debug");
    assert!(log_filter(3).contains("printable=trace"));
    // Dependencies stay quiet until the last rung.
    assert!(log_filter(3).starts_with("debug,"));
}

#[test]
fn verbosity_saturates_past_three() {
    assert_eq!(log_filter(3), log_filter(9));
}

/// Capture the formatted log output produced under a given filter.
#[derive(Clone, Default)]
struct Capture(Arc<Mutex<Vec<u8>>>);

impl std::io::Write for Capture {
    fn write(&mut self, buf: &[u8]) -> std::io::Result<usize> {
        self.0.lock().unwrap().extend_from_slice(buf);
        Ok(buf.len())
    }
    fn flush(&mut self) -> std::io::Result<()> {
        Ok(())
    }
}

impl<'a> tracing_subscriber::fmt::MakeWriter<'a> for Capture {
    type Writer = Self;
    fn make_writer(&'a self) -> Self::Writer {
        self.clone()
    }
}

/// Where an event comes from.
struct Site(&'static Metadata<'static>);

impl Callsite for Site {
    fn set_interest(&self, _interest: Interest) {}
    fn metadata(&self) -> &Metadata<'_> {
        self.0
    }
}

/// A place to identify callsites by before their metadata exists.
struct Anchor;

impl Callsite for Anchor {
    fn set_interest(&self, _interest: Interest) {}
    fn metadata(&self) -> &Metadata<'_> {
        unreachable!("an anchor is never asked")
    }
}

/// What a subscriber built from `filter` actually prints for an event.
fn logged(filter: &str, target: &'static str, level: Level, text: &str) -> String {
    let capture = Capture::default();
    let subscriber = tracing_subscriber::fmt()
        .with_env_filter(tracing_subscriber::EnvFilter::new(filter))
        .with_writer(capture.clone())
        .with_ansi(false)
        .finish();
    let anchor: &'static Anchor = Box::leak(Box::new(Anchor));
    let fields = FieldSet::new(&["message"], tracing::callsite::Identifier(anchor));
    let metadata: &'static Metadata<'static> = Box::leak(Box::new(Metadata::new(
        "event",
        target,
        level,
        None,
        None,
        None,
        fields,
        tracing::metadata::Kind::EVENT,
    )));
    let site: &'static Site = Box::leak(Box::new(Site(metadata)));
    tracing::subscriber::with_default(subscriber, || {
        tracing::callsite::register(site);
        tracing::dispatcher::get_default(|dispatch| {
            if dispatch.enabled(metadata) {
                let field = metadata.fields().field("message").unwrap();
                let values = [(&field, Some(&text as &dyn Value))];
                dispatch.event(&Event::new(metadata, &metadata.fields().value_set(&values)));
            }
        });
    });
    let bytes = capture.0.lock().unwrap().clone();
    String::from_utf8(bytes).unwrap()
}

/// The regression this filter exists to prevent: chromiumoxide logs its
/// own (harmless) websocket deserialization failures at ERROR, and a
/// working `print --url` must not look like it failed.
#[test]
fn dependency_errors_are_silent_below_the_last_verbosity_rung() {
    for verbose in 0..=2 {
        for (target, level, text) in [
            ("chromiumoxide::conn", Level::ERROR, "Failed to deserialize WS response"),
            ("chromiumoxide::handler", Level::ERROR, "WS Connection error"),
            ("btleplug::corebluetooth", Level::WARN, "some adapter grumble"),
        ] {
            let out = logged(&log_filter(verbose), target, level, text);
            assert_eq!(out, "", "-v x{verbose} leaked dependency logs");
        }
    }
}

/// Our own warnings are the one thing the default level does show — a
/// stalled printer or an overheating head has to reach the user.
#[test]
fn our_own_warnings_survive_the_default_filter() {
    let out = logged(&log_filter(0), "printable", Level::WARN, "printer stalled");
    assert!(out.contains("printer stalled"), "{out:?}");
    let out = logged(&log_filter(0), "printable", Level::INFO, "scanning");
    assert!(!out.contains("scanning"), "info must stay hidden: {out:?}");
}

/// `-vvv` is the deliberate "tell me everything" rung, dependencies
/// included; that is where the chromiumoxide noise is allowed back.
#[test]
fn the_last_rung_lets_dependencies_speak() {
    let out = logged(&log_filter(3), "btleplug::corebluetooth", Level::DEBUG, "adapter event");
    assert!(out.contains("adapter event"), "{out:?}");
}

/// A printer that is present but never answers is still "no usable
/// printer": a script testing for exit 2 must catch it there, not in the
/// catch-all.
#[test]
fn exit_codes_separate_the_failure_modes() {
    assert_eq!(exit_code(&Failure::NoPrinter(NoPrinterFound)), 2);
    assert_eq!(exit_code(&Failure::NotResponding(PrinterNotResponding::new("LX-D02"))), 2);
    assert_eq!(exit_code(&Failure::NoPaper(NoPaper)), 3);
    assert_eq!(exit_code(&Failure::Print(PrintFailure, Setback::Other("x".to_string()))), 4);
    assert_eq!(exit_code(&Failure::Other("x".to_string())), 1);
    // The marker of a failed print does not hide what stopped it.
    let mid_job = Failure::Print(PrintFailure, Setback::NoPaper(NoPaper));
    assert_eq!(exit_code(&mid_job), 3);
    assert_eq!(mid_job.message(), "print failed: printer is out of paper");
    assert_eq!(exit_code(&Failure::TooLarge("x".to_string())), 1);
}

#[test]
fn failures_say_what_happened() {
    assert_eq!(
        Failure::NoPrinter(NoPrinterFound).message(),
        "no supported printer found. Is the printer on and in range?"
    );
    assert_eq!(
        Failure::NotResponding(PrinterNotResponding::new("LX-D02")).message(),
        "found LX-D02 but it did not respond — is the printer powered on?"
    );
    assert_eq!(Failure::NoPaper(NoPaper).message(), "printer is out of paper");
    assert_eq!(
        Failure::Print(PrintFailure, Setback::Other("link lost".to_string())).message(),
        "print failed: link lost"
    );
    assert_eq!(Failure::Other("x".to_string()).message(), "x");
}

#[test]
fn only_a_bare_dash_means_stdin() {
    assert!(is_stdin_path("-"));
    assert!(!is_stdin_path("./-"));
    assert!(!is_stdin_path("-.md"));
    assert!(!is_stdin_path("notes.md"));
}

#[test]
fn extensions_are_those_of_the_last_component() {
    assert_eq!(extension("a/b/photo.JPG"), "jpg");
    assert_eq!(extension("notes.tar.md"), "md");
    assert_eq!(extension(".md"), "");
    assert_eq!(extension("a.b/c"), "");
    assert_eq!(extension("a.md/"), "md");
    assert_eq!(extension("a.md/."), "md");
    assert_eq!(extension("a.md/.."), "");
    assert_eq!(extension("name."), "");
    assert_eq!(extension(""), "");
}

#[test]
fn sources_follow_from_the_arguments() {
    assert!(matches!(
        build_bitmap_from(Some("hi"), None, None, true),
        Ok(Source::Inline { text, markdown: true }) if text == "hi"
    ));
    assert!(matches!(
        build_bitmap_from(None, None, None, false),
        Ok(Source::Stdin { markdown: false })
    ));
    assert!(matches!(
        build_bitmap_from(None, Some("-"), None, true),
        Ok(Source::Stdin { markdown: true })
    ));
    assert!(matches!(
        build_bitmap_from(None, Some("a.txt"), None, false),
        Ok(Source::Document { markdown: false, .. })
    ));
    assert!(matches!(
        build_bitmap_from(None, Some("a.txt"), None, true),
        Ok(Source::Document { markdown: true, .. })
    ));
    assert!(matches!(
        build_bitmap_from(None, Some("a.Markdown"), None, false),
        Ok(Source::Document { markdown: true, .. })
    ));
    assert!(matches!(
        build_bitmap_from(None, Some("a.png"), None, false),
        Ok(Source::Image(path)) if path == "a.png"
    ));
    assert!(matches!(
        build_bitmap_from(None, None, Some("http://x/"), false),
        Ok(Source::Url(url)) if url == "http://x/"
    ));
}

#[test]
fn arguments_that_make_no_sense_are_refused() {
    assert_eq!(
        build_bitmap_from(Some("hi"), Some("a.txt"), None, false).unwrap_err(),
        "cannot combine a text argument with --file"
    );
    assert_eq!(
        build_bitmap_from(None, Some("a.png"), None, true).unwrap_err(),
        "--markdown does not apply to an image file (a.png)"
    );
    assert_eq!(
        build_bitmap_from(None, Some("a.pdf"), None, false).unwrap_err(),
        "unsupported file type: a.pdf (expected .png, .jpg, .jpeg, .txt, .md or .markdown)"
    );
}

/// A bitmap is not a document; the error must name the flag that is wrong.
#[test]
fn markdown_flag_with_an_image_file_is_an_error() {
    let why = build_bitmap_from(None, Some("photo.png"), None, true).unwrap_err();
    assert!(why.contains("--markdown"), "{why}");
}

/// `-f -` is the Unix spelling of "read stdin", and composes with `-m`.
#[test]
fn dash_file_reads_stdin() {
    for markdown in [false, true] {
        let dash = build_bitmap_from(None, Some("-"), None, markdown).unwrap();
        let pipe = build_bitmap_from(None, None, None, markdown).unwrap();
        assert_eq!(format!("{dash:?}"), format!("{pipe:?}"));
    }
}

/// Redundant, not wrong: a `.md` file is markdown already.
#[test]
fn markdown_flag_is_silently_accepted_for_a_markdown_file() {
    let with_flag = build_bitmap_from(None, Some("notes.md"), None, true).unwrap();
    let without = build_bitmap_from(None, Some("notes.md"), None, false).unwrap();
    assert_eq!(format!("{with_flag:?}"), format!("{without:?}"));
}

#[test]
fn dither_words_stand_for_algorithms() {
    assert_eq!(Dither::from(DitherArg::Floyd), Dither::FloydSteinberg);
    assert_eq!(Dither::from(DitherArg::Atkinson), Dither::Atkinson);
    assert_eq!(Dither::from(DitherArg::Threshold), Dither::Threshold);
}

#[test]
fn status_is_told_line_by_line() {
    let s = Status {
        battery_pct: 80,
        no_paper: true,
        charging: true,
        charged: false,
        overheat: true,
        low_battery: true,
        density: Some(3),
        voltage_mv: Some(4005),
    };
    assert_eq!(
        status_lines(&s),
        vec![
            "Battery:  80% (charging)",
            "Paper:    OUT",
            "Density:  3",
            "Voltage:  4.01 V",
            "Warning:  print head is overheating",
            "Warning:  battery is low",
        ]
    );
    let s = Status {
        battery_pct: 5,
        no_paper: false,
        charging: false,
        charged: true,
        overheat: false,
        low_battery: false,
        density: None,
        voltage_mv: None,
    };
    assert_eq!(status_lines(&s), vec!["Battery:  5% (charged)", "Paper:    OK"]);
}

#[test]
fn scan_tables_are_aligned() {
    assert_eq!(scan_head(), "NAME                 MODEL    ID");
    assert_eq!(
        scan_row("LX-D02", PrinterModel::LxD02, "aa-bb"),
        "LX-D02               lx-d02   aa-bb"
    );
    assert_eq!(
        advertiser_row(None, None, "id", &vec![]),
        format!("{:<24} {:<8} {:<38} -", "(no name)", "-", "id")
    );
    assert_eq!(
        advertiser_row(
            Some("X6h-1"),
            Some(PrinterModel::X6),
            "id",
            &vec!["0xAF30".to_string(), "0xAE30".to_string()]
        ),
        format!("{:<24} {:<8} {:<38} 0xAF30 0xAE30", "X6h-1", "x6", "id")
    );
}

#[test]
fn validate_url_accepts_http_and_https() {
    for url in [
        "http://example.com",
        "https://example.com",
        "HTTP://EXAMPLE.COM",
        "HtTpS://example.com/path?q=1",
    ] {
        assert!(validate_url(url).is_ok(), "should accept {url}");
    }
}

#[test]
fn validate_url_rejects_other_schemes() {
    for url in [
        "file:///etc/passwd",
        "ftp://host/file",
        "javascript:alert(1)",
        "data:text/html,<h1>hi</h1>",
        "",
        "garbage",
        "https:/example.com",
        "héllo://multibyte",
    ] {
        assert!(validate_url(url).is_err(), "should reject {url}");
    }
}

#[test]
fn http_scheme_detection_is_case_insensitive() {
    assert!(is_http("HTTPS://example.com/a.png"));
    assert!(is_http("http://example.com/a.png"));
    assert!(!is_http("ftp://example.com/a.png"));
    assert!(!is_http("/etc/hosts"));
    assert!(!is_http("photo.png"));
}
