//! What comes in from outside: images, uploads, print queue jobs.

use flate2::write::GzEncoder;
use flate2::Compression;
use printa_ble::images::{
    check_length, fetch_plan, local_path, resolve, take_chunk, time_left, Fetch, Fetched,
    MAX_IMAGE_BYTES,
};
use printa_ble::ipp::{
    accept_inflated, begins_gzip, check_content_type, check_job, failure_lines, maybe_inflate,
    plan_job, preview_line, printing_line, success_lines, JobPlan, MAX_JOB_BYTES,
};
use printa_ble::protocol::job::JobStats;
use printa_ble::protocol::notifications::Status;
use printa_ble::raster::picture::bitmap_from_image_bytes;
use printa_ble::raster::urf::decode_urf;
use printa_ble::raster::{bitmap_to_png, markdown_image_refs, Bitmap, Dither};
use printa_ble::server::{
    dither_from_str, done_line, form_options, image_upload, lan_line, print_body, request_line,
    starting_line, status_body, validate_options, ApiError, StatusValue, UploadField,
};
use printa_ble::service::{
    Failure, NoPrinterFound, PrintFailure, PrintOptions, PrintOutcome, PrinterNotResponding,
};
use printa_ble::transport::log::{NoPaper, Setback};
use printa_ble::web::render_image;
use std::io::Write;

const PNG_MAGIC: [u8; 8] = [0x89, b'P', b'N', b'G', b'\r', b'\n', 0x1A, b'\n'];

/// A real, decodable 384-wide PNG.
fn png_bytes() -> Vec<u8> {
    let mut bitmap = Bitmap::new(20);
    for x in 0..384 {
        bitmap.set(x, 10, true);
    }
    bitmap_to_png(&bitmap)
}

/// A small in-memory PNG with a light/dark gradient (exercises dithering).
fn test_png() -> Vec<u8> {
    let img = image::GrayImage::from_fn(64, 32, |x, _| image::Luma([(x * 4) as u8]));
    let mut bytes = std::io::Cursor::new(Vec::new());
    image::DynamicImage::ImageLuma8(img)
        .write_to(&mut bytes, image::ImageFormat::Png)
        .unwrap();
    bytes.into_inner()
}

#[test]
fn image_renders_with_each_dither() {
    let png = test_png();
    for dither in ["floyd", "atkinson", "threshold"] {
        let bitmap = render_image(&png, dither).unwrap();
        assert!(bitmap.height() > 0, "dither {dither}");
        assert_eq!(&bitmap.to_png()[..8], &PNG_MAGIC, "dither {dither}");
    }
}

#[test]
fn image_bad_dither_errors() {
    let err = render_image(&test_png(), "bogus").unwrap_err();
    assert!(err.contains("unknown dither"), "unexpected message: {err}");
}

#[test]
fn image_bad_bytes_error() {
    let err = render_image(b"not an image", "floyd").unwrap_err();
    assert!(err.contains("decode"), "unexpected message: {err}");
}

#[test]
fn a_picture_of_the_right_size_keeps_its_pixels() {
    let b = bitmap_from_image_bytes(&png_bytes(), Dither::Threshold).unwrap();
    assert_eq!(b.height(), 20);
    for y in 0..20 {
        assert!((0..384).all(|x| b.get(x, y) == (y == 10)), "row {y}");
    }
    // Twice as wide is scaled to half the height.
    let wide = image::DynamicImage::new_luma8(768, 100);
    let mut bytes = std::io::Cursor::new(Vec::new());
    wide.write_to(&mut bytes, image::ImageFormat::Png).unwrap();
    let b = bitmap_from_image_bytes(&bytes.into_inner(), Dither::Threshold).unwrap();
    assert_eq!(b.height(), 50);
}

#[test]
fn resolves_relative_local_file() {
    let plan = fetch_plan("photo.png", 0, Some("/docs"), true, true);
    assert!(matches!(plan, Fetch::Local(path) if path == "/docs/photo.png"));
    let (images, warnings) =
        resolve(&vec!["photo.png".to_string()], &vec![Fetched::Bytes(png_bytes())]);
    assert_eq!(images.len(), 1);
    assert_eq!(images[0].dest, "photo.png");
    assert!(images[0].bitmap.height() > 0);
    assert!(warnings.is_empty());
}

#[test]
fn resolves_absolute_local_file() {
    assert_eq!(local_path("/tmp/photo.png", Some("/docs")), "/tmp/photo.png");
    assert_eq!(local_path("photo.png", None), "photo.png");
    assert_eq!(local_path("photo.png", Some("/docs/")), "/docs/photo.png");
}

/// The security boundary: no file is read for a caller on the network.
#[test]
fn local_files_are_never_read_when_not_allowed() {
    for dest in ["/etc/hosts", "photo.png"] {
        let plan = fetch_plan(dest, 0, Some("/docs"), false, true);
        assert!(matches!(plan, Fetch::Skip(_)), "{dest}: {plan:?}");
    }
    assert!(matches!(fetch_plan("http://x/a.png", 0, None, false, true), Fetch::Remote));
    assert!(matches!(fetch_plan("http://x/a.png", 0, None, true, false), Fetch::Skip(_)));
    assert!(matches!(fetch_plan("http://x/a.png", 32, None, true, true), Fetch::Skip(_)));
}

#[test]
fn unreachable_url_is_skipped() {
    let (images, warnings) = resolve(
        &vec!["http://127.0.0.1:1/x.png".to_string()],
        &vec![Fetched::Failed("connection refused".to_string())],
    );
    assert!(images.is_empty());
    assert_eq!(
        warnings,
        vec!["warning: skipping image http://127.0.0.1:1/x.png: connection refused"]
    );
}

#[test]
fn missing_local_file_is_skipped() {
    let refs = vec!["does-not-exist.png".to_string()];
    let why = "No such file or directory (os error 2)".to_string();
    assert!(resolve(&refs, &vec![Fetched::Failed(why)]).0.is_empty());
}

#[test]
fn document_without_images_resolves_to_nothing() {
    let refs = markdown_image_refs("# Just a heading\n\nand prose.\n");
    assert!(refs.is_empty());
    assert!(resolve(&refs, &vec![]).0.is_empty());
}

#[test]
fn undecodable_bytes_are_skipped() {
    let (images, warnings) = resolve(
        &vec!["photo.png".to_string()],
        &vec![Fetched::Bytes(b"not an image at all".to_vec())],
    );
    assert!(images.is_empty());
    assert!(warnings[0].starts_with("warning: skipping image photo.png: failed to decode image"));
}

#[test]
fn skipped_references_are_passed_over_silently() {
    let (images, warnings) = resolve(&vec!["a".to_string()], &vec![Fetched::Skipped]);
    assert!(images.is_empty() && warnings.is_empty());
}

#[test]
fn downloads_are_limited() {
    assert!(check_length(None).is_ok());
    assert!(check_length(Some(MAX_IMAGE_BYTES)).is_ok());
    assert_eq!(
        check_length(Some(MAX_IMAGE_BYTES + 1)).unwrap_err(),
        "image is 5242881 bytes, over the 5242880 byte limit"
    );
    let mut body = vec![0u8; MAX_IMAGE_BYTES as usize - 1];
    assert!(take_chunk(&mut body, &[1]).is_ok());
    assert_eq!(
        take_chunk(&mut body, &[1]).unwrap_err(),
        "image is over the 5242880 byte limit"
    );
    assert_eq!(body.len() as u64, MAX_IMAGE_BYTES);
}

#[test]
fn preview_image_multipart_returns_png() {
    let fields =
        vec![UploadField::Dither("atkinson".to_string()), UploadField::File(png_bytes())];
    let b = image_upload(fields).unwrap();
    assert!(bitmap_to_png(&b).starts_with(&PNG_MAGIC));
}

#[test]
fn preview_image_bad_dither_is_400() {
    let fields = vec![UploadField::Dither("bogus".to_string()), UploadField::File(png_bytes())];
    let e = image_upload(fields).unwrap_err();
    assert_eq!(e.status, 400);
    assert!(e.message.contains("dither"), "{}", e.message);
    let e = image_upload(vec![UploadField::Other]).unwrap_err();
    assert_eq!((e.status, e.message.as_str()), (400, "missing `file` field"));
    assert_eq!(dither_from_str("none"), Some(Dither::Threshold));
    assert_eq!(dither_from_str("Floyd"), None);
}

#[test]
fn a_status_answer_leaves_out_what_is_not_known() {
    let mut s = Status {
        battery_pct: 80,
        no_paper: false,
        charging: true,
        charged: false,
        overheat: false,
        low_battery: false,
        density: None,
        voltage_mv: None,
    };
    let body = status_body(&s);
    assert_eq!(body.len(), 6);
    assert_eq!(body[0], ("battery_pct".to_string(), StatusValue::Number(80)));
    assert_eq!(body[2], ("charging".to_string(), StatusValue::Flag(true)));
    s.density = Some(3);
    s.voltage_mv = Some(4000);
    let body = status_body(&s);
    assert_eq!(body[6], ("density".to_string(), StatusValue::Number(3)));
    assert_eq!(body[7], ("voltage_mv".to_string(), StatusValue::Number(4000)));
    assert_eq!(lan_line("10.0.0.2", 8000), "On your LAN: http://10.0.0.2:8000");
    let e = ApiError::of_failure(&Failure::NoPrinter(NoPrinterFound));
    assert_eq!(e.status, 503);
}

#[test]
fn failed_prints_answer_with_their_status() {
    let status = |f: Failure| ApiError::of_print(&f).status;
    assert_eq!(status(Failure::NoPrinter(NoPrinterFound)), 503);
    assert_eq!(status(Failure::NotResponding(PrinterNotResponding::new("LX-D02"))), 503);
    assert_eq!(status(Failure::NoPaper(NoPaper)), 409);
    assert_eq!(status(Failure::Print(PrintFailure, Setback::NoPaper(NoPaper))), 409);
    assert_eq!(status(Failure::Print(PrintFailure, Setback::Other("x".to_string()))), 500);
    assert_eq!(status(Failure::TooLarge("x".to_string())), 400);
    assert_eq!(status(Failure::Other("x".to_string())), 500);
    let e = ApiError::of_print(&Failure::NoPaper(NoPaper));
    assert_eq!(e.message, "printer is out of paper");
    assert_eq!(ApiError::bad_gateway("x".to_string()).status, 502);
}

#[test]
fn print_options_have_defaults_and_limits() {
    let opts = validate_options(None, None, None).unwrap();
    assert_eq!((opts.density, opts.feed, opts.copies), (3, 40, 1));
    let opts = validate_options(Some(7), Some(0), Some(20)).unwrap();
    assert_eq!((opts.density, opts.feed, opts.copies), (7, 0, 20));
    for (density, copies) in [(9, 1), (0, 1), (3, 0), (3, 21)] {
        let e = validate_options(Some(density), None, Some(copies)).unwrap_err();
        assert_eq!(e.status, 400);
    }
    let e = validate_options(Some(9), None, None).unwrap_err();
    assert_eq!(e.message, "density must be 1-7, got 9");
    let e = validate_options(None, Some(70_000), None).unwrap_err();
    assert_eq!(e.message, "feed must be at most 65535, got 70000");
    let opts = form_options(Some("5"), None, Some("2")).unwrap();
    assert_eq!((opts.density, opts.feed, opts.copies), (5, 40, 2));
    let e = form_options(None, Some("lots"), None).unwrap_err();
    assert_eq!((e.status, e.message.as_str()), (400, "feed must be a number"));
    assert_eq!(form_options(None, None, Some("21")).unwrap_err().message, "copies must be 1-20, got 21");
}

#[test]
fn the_server_logs_and_answers_with_counters() {
    let opts = PrintOptions { density: 3, feed: 40, copies: 1 };
    assert_eq!(
        starting_line("markdown", 812, &opts),
        "print job starting: markdown, 812 lines, density 3, feed 40, 1 copies"
    );
    let outcome = PrintOutcome {
        lines: 812,
        stats: JobStats { packets_sent: 812, retransmits: 0, holds: 3, cooldowns: 41 },
        elapsed: 24_310_900_000,
    };
    assert_eq!(
        done_line("markdown", &outcome),
        "print job done: markdown, 812 lines in 24310ms (812 packets, 3 holds, 41 cooldowns, 0 resends)"
    );
    assert_eq!(
        request_line("POST", "/preview/markdown", 200, 34),
        "POST /preview/markdown -> 200 in 34ms"
    );
    let body = print_body(&outcome, 1);
    assert_eq!(body[0], ("printed_lines".to_string(), 812));
    assert_eq!(body[1], ("copies".to_string(), 1));
    assert_eq!(body[6], ("elapsed_ms".to_string(), 24310));
}

/// A single-page Apple Raster stream of 4 × 1 pixels.
fn stream(body: &[u8]) -> Vec<u8> {
    let mut v = b"UNIRAST\0".to_vec();
    v.extend_from_slice(&1u32.to_be_bytes());
    v.extend_from_slice(&[8, 0, 1, 0]);
    v.extend_from_slice(&[0; 8]);
    v.extend_from_slice(&4u32.to_be_bytes());
    v.extend_from_slice(&1u32.to_be_bytes());
    v.extend_from_slice(&203u32.to_be_bytes());
    v.extend_from_slice(&[0; 8]);
    v.extend_from_slice(body);
    v
}

fn gzip(plain: &[u8]) -> Vec<u8> {
    let mut enc = GzEncoder::new(Vec::new(), Compression::fast());
    enc.write_all(plain).unwrap();
    enc.finish().unwrap()
}

#[test]
fn empty_stdin_is_rejected_clearly() {
    let err = check_job(vec![]).unwrap_err();
    assert!(err.contains("empty job"), "{err}");
}

#[test]
fn oversized_job_is_refused_before_decoding() {
    let err = check_job(vec![0; MAX_JOB_BYTES as usize + 1]).unwrap_err();
    assert!(err.contains("larger than"), "{err}");
    assert!(check_job(vec![1]).is_ok());
}

/// The iPhone path: a gzipped job must decode exactly like a plain one.
#[test]
fn gzipped_job_inflates_and_decodes() {
    let plain = stream(&[0x00, 0x03, 0x00]);
    let gz = gzip(&plain);
    assert!(begins_gzip(&gz));
    // Compressed bytes alone are not decodable — this is the failure iOS hit.
    assert!(decode_urf(&gz).is_err());

    let inflated = maybe_inflate(gz).unwrap();
    assert_eq!(inflated, plain);
    assert_eq!(decode_urf(&inflated).unwrap().len(), 1);
}

#[test]
fn uncompressed_job_passes_through_untouched() {
    let plain = b"UNIRAST\0 not really".to_vec();
    assert_eq!(maybe_inflate(plain.clone()).unwrap(), plain);
}

#[test]
fn non_urf_input_fails_instead_of_printing_noise() {
    let job = check_job(b"%PDF-1.7\nnot a raster".to_vec()).unwrap();
    assert!(decode_urf(&job).is_err());
    let (lines, plan) = plan_job(job, Dither::Threshold);
    assert!(lines.is_empty());
    assert!(matches!(plan, JobPlan::Refuse(why)
        if why.starts_with("cannot decode the job as Apple Raster (URF): ")));
}

#[test]
fn inflated_jobs_are_limited_too() {
    let big = vec![0u8; MAX_JOB_BYTES as usize + 2];
    assert_eq!(maybe_inflate(gzip(&big)).unwrap_err(), "job inflates to more than 64 MiB");
    assert_eq!(
        accept_inflated(Err("bad data".to_string())).unwrap_err(),
        "cannot inflate the compressed job: bad data"
    );
    assert!(maybe_inflate(vec![0x1f, 0x8b, 0xff, 0xff]).is_err());
}

#[test]
fn a_job_is_planned_with_its_lines() {
    let plain = stream(&[0x00, 0x03, 0x00]);
    let (lines, plan) = plan_job(gzip(&plain), Dither::Threshold);
    assert_eq!(
        lines,
        vec![
            format!("INFO: inflated a gzipped job to {} bytes", plain.len()),
            "ATTR: job-impressions=1".to_string(),
            "INFO: decoded 1 page(s), 4x1 at 203 dpi".to_string(),
        ]
    );
    assert!(matches!(plan, JobPlan::Print { pages: 1, .. }));
    let (lines, plan) = plan_job(stream(&[0x00, 0x03, 0xff]), Dither::Threshold);
    assert_eq!(lines[2], "INFO: every page was blank; nothing to print");
    assert!(matches!(plan, JobPlan::Nothing));
    let mut none = b"UNIRAST\0".to_vec();
    none.extend_from_slice(&0u32.to_be_bytes());
    let (lines, plan) = plan_job(none, Dither::Threshold);
    assert_eq!(lines, vec!["INFO: job contained no pages; nothing to print"]);
    assert!(matches!(plan, JobPlan::Nothing));
}

#[test]
fn the_declared_type_is_advisory() {
    assert_eq!(check_content_type(None), None);
    assert_eq!(check_content_type(Some("image/urf")), None);
    assert_eq!(check_content_type(Some("application/octet-stream")), None);
    assert_eq!(
        check_content_type(Some("application/pdf")).as_deref(),
        Some("INFO: document declared application/pdf; trying to decode it as Apple Raster anyway")
    );
}

#[test]
fn the_print_queue_is_told_what_happened() {
    let outcome = PrintOutcome {
        lines: 120,
        stats: JobStats { packets_sent: 60, retransmits: 3, holds: 1, cooldowns: 2 },
        elapsed: 4_250_000_000,
    };
    assert_eq!(
        success_lines(2, &outcome),
        vec![
            "STATE: -media-empty,offline-report",
            "ATTR: job-impressions-completed=2",
            "INFO: printed 120 lines in 4.2s (1 holds, 2 cooldowns, 3 resends)",
        ]
    );
    assert_eq!(
        failure_lines(&Failure::NoPaper(NoPaper)),
        vec!["STATE: media-empty", "ERROR: printer is out of paper"]
    );
    assert_eq!(
        failure_lines(&Failure::NotResponding(PrinterNotResponding::new("LX-D02")))[0],
        "STATE: offline-report"
    );
    assert_eq!(failure_lines(&Failure::Other("x".to_string())), vec!["ERROR: x"]);
    assert_eq!(printing_line(7), "INFO: printing 7 lines");
    assert_eq!(preview_line("a.png", 7), "INFO: preview written to a.png (7 lines)");
}

#[test]
fn a_picture_of_one_shade_keeps_it() {
    for (shade, black) in [(0u8, true), (100, true), (127, true), (128, false), (255, false)] {
        for (width, height) in [(1, 1), (100, 50), (384, 7), (1000, 600), (3, 2000)] {
            let gray = image::GrayImage::from_pixel(width, height, image::Luma([shade]));
            let mut bytes = std::io::Cursor::new(Vec::new());
            gray.write_to(&mut bytes, image::ImageFormat::Png).unwrap();
            let b = bitmap_from_image_bytes(&bytes.into_inner(), Dither::Threshold).unwrap();
            let row = [if black { 0xFF } else { 0 }; 48];
            for y in 0..b.height() {
                assert_eq!(*b.row(y), row, "shade {shade} at {width}x{height}");
            }
        }
    }
}

#[test]
fn a_gray_picture_of_the_print_size_is_not_resampled() {
    // Every second pixel is black: any filter would blur this.
    let gray = image::GrayImage::from_fn(384, 9, |x, y| image::Luma([((x + y) % 2 * 255) as u8]));
    let mut bytes = std::io::Cursor::new(Vec::new());
    gray.write_to(&mut bytes, image::ImageFormat::Png).unwrap();
    let b = bitmap_from_image_bytes(&bytes.into_inner(), Dither::FloydSteinberg).unwrap();
    assert_eq!(b.height(), 9);
    for y in 0..9 {
        assert_eq!(*b.row(y), [if y % 2 == 0 { 0xAA } else { 0x55 }; 48]);
    }
}

#[test]
fn a_colour_picture_prints_by_its_brightness() {
    let img = image::RgbImage::from_fn(384, 4, |x, _| {
        image::Rgb(if x < 192 { [0, 0, 200] } else { [250, 250, 10] })
    });
    let mut bytes = std::io::Cursor::new(Vec::new());
    img.write_to(&mut bytes, image::ImageFormat::Png).unwrap();
    let b = bitmap_from_image_bytes(&bytes.into_inner(), Dither::Threshold).unwrap();
    assert_eq!(b.height(), 4);
    assert!(b.get(0, 0) && b.get(191, 3) && !b.get(192, 0) && !b.get(383, 3));
}

#[test]
fn the_time_for_images_runs_out_after_thirty_seconds() {
    assert_eq!(time_left(0), 30_000_000_000);
    assert_eq!(time_left(29_999_999_999), 1);
    assert_eq!(time_left(30_000_000_000), 0);
    assert_eq!(time_left(u64::MAX), 0);
}

/// A picture of two halves, as a PNG of 8-bit colours.
fn two_halves(width: u32, height: u32, left: [u8; 3], right: [u8; 3]) -> Vec<u8> {
    let img = image::RgbImage::from_fn(width, height, |x, _| {
        image::Rgb(if x < width / 2 { left } else { right })
    });
    let mut bytes = std::io::Cursor::new(Vec::new());
    img.write_to(&mut bytes, image::ImageFormat::Png).unwrap();
    bytes.into_inner()
}

#[test]
fn flat_areas_of_colour_keep_their_shade_when_scaled() {
    // (0, 0, 255) is dark, (0, 255, 0) is light; at 127 and 128 a shade more or
    // less would show.
    for (left, right, black) in [
        ([0, 0, 255], [0, 255, 0], (true, false)),
        ([127, 127, 127], [128, 128, 128], (true, false)),
        ([255, 255, 255], [0, 0, 0], (false, true)),
    ] {
        for (width, height) in [(768, 200), (100, 60), (5000, 900)] {
            let png = two_halves(width, height, left, right);
            let b = bitmap_from_image_bytes(&png, Dither::Threshold).unwrap();
            for y in 0..b.height() {
                assert!((0..150).all(|x| b.get(x, y) == black.0), "{width}x{height} row {y}");
                assert!((234..384).all(|x| b.get(x, y) == black.1), "{width}x{height} row {y}");
            }
        }
    }
}

#[test]
fn a_narrow_mark_stays_narrow_when_scaled() {
    let gray = image::GrayImage::from_fn(1920, 400, |x, y| {
        image::Luma([if (900..1020).contains(&x) && (150..250).contains(&y) { 0 } else { 255 }])
    });
    let mut bytes = std::io::Cursor::new(Vec::new());
    gray.write_to(&mut bytes, image::ImageFormat::Png).unwrap();
    let b = bitmap_from_image_bytes(&bytes.into_inner(), Dither::FloydSteinberg).unwrap();
    assert_eq!(b.height(), 80);
    for y in 0..80 {
        for x in 0..384 {
            if x < 174 || x > 210 || y < 24 || y > 56 {
                assert!(!b.get(x, y), "white at {x},{y}");
            } else if (186..=197).contains(&x) && (36..=43).contains(&y) {
                assert!(b.get(x, y), "black at {x},{y}");
            }
        }
    }
}

#[test]
fn transparent_pictures_print_too() {
    let img = image::RgbaImage::from_fn(384, 3, |x, _| {
        image::Rgba(if x < 100 { [0, 0, 0, 255] } else { [255, 255, 255, 255] })
    });
    let mut bytes = std::io::Cursor::new(Vec::new());
    img.write_to(&mut bytes, image::ImageFormat::Png).unwrap();
    let b = bitmap_from_image_bytes(&bytes.into_inner(), Dither::Threshold).unwrap();
    assert_eq!(b.height(), 3);
    assert!((0..384).all(|x| b.get(x, 1) == (x < 100)));
}
