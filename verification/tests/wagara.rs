//! Pattern bands.

use printa_ble::raster::bitmap::WIDTH;
use printa_ble::raster::wagara::options::{
    parse_wagara_options, WagaraError, WagaraOptions, DEFAULT_HEIGHT, MAX_HEIGHT, MAX_SCALE,
    MIN_HEIGHT,
};
use printa_ble::raster::wagara::render::render_wagara;
use printa_ble::raster::Bitmap;

/// The names of all patterns.
const PATTERNS: [&str; 10] = [
    "asanoha",
    "ichimatsu",
    "kanoko",
    "kikkou",
    "sayagata",
    "seigaiha",
    "shippou",
    "tatewaku",
    "uroko",
    "yagasuri",
];

/// Every divisor of 384 below the full width — the periods a band may
/// legitimately repeat at.
fn divisors() -> Vec<usize> {
    (1..WIDTH).filter(|d| WIDTH % *d == 0).collect()
}

fn column(b: &Bitmap, x: usize) -> Vec<bool> {
    (0..b.height()).map(|y| b.get(x, y)).collect()
}

fn ink(b: &Bitmap) -> usize {
    (0..b.height())
        .map(|y| (0..WIDTH).filter(|&x| b.get(x, y)).count())
        .sum()
}

/// Ink anywhere in the columns `xs`.
fn ink_in_columns(b: &Bitmap, xs: std::ops::Range<usize>) -> bool {
    xs.into_iter().any(|x| (0..b.height()).any(|y| b.get(x, y)))
}

/// Smallest period `p` (a divisor of 384) with `column(x) == column(x + p)`
/// for every `x`, or `None` if the band does not repeat within its width.
fn horizontal_period(b: &Bitmap) -> Option<usize> {
    divisors()
        .into_iter()
        .find(|&p| (0..WIDTH).all(|x| column(b, x) == column(b, (x + p) % WIDTH)))
}

fn render(name: &str) -> Bitmap {
    render_wagara(name, WagaraOptions::default())
        .unwrap_or_else(|e| panic!("{name} should render: {}", e.message()))
}

#[test]
fn every_pattern_renders_a_full_width_band() {
    for name in PATTERNS {
        let b = render(name);
        assert_eq!(
            b.height(),
            DEFAULT_HEIGHT as usize,
            "{name} band should be {DEFAULT_HEIGHT} px tall"
        );
        let ink = ink(&b);
        let total = WIDTH * b.height();
        assert!(ink > 0, "{name} band has no ink");
        // A separator is a texture, not a blackout: somewhere between
        // "visible" and "a solid bar" for every pattern.
        assert!(
            ink * 20 > total,
            "{name} covers only {ink}/{total} px — too faint to read"
        );
        assert!(
            ink * 10 < total * 8,
            "{name} covers {ink}/{total} px — nearly solid black"
        );
    }
}

/// A thermal head lays down what it is told, so a band's coverage is also
/// its cost in heat, paper darkening and battery. The five line patterns
/// sit near a tenth; the solid ones (checkerboard, scales, fletching) are
/// half by construction, because that is what the motif is. Anything
/// outside that window is a geometry bug, not a style choice.
#[test]
fn ink_density_stays_in_the_thermal_range() {
    for name in PATTERNS {
        let b = render(name);
        let covered = ink(&b) as f64 / (WIDTH * b.height()) as f64;
        assert!(
            (0.10..=0.52).contains(&covered),
            "{name} covers {:.1}% of the band — outside the 10-52% a separator should print at",
            covered * 100.0
        );
    }
}

/// The solid motifs are half ink, less the white shafts of the fletching.
#[test]
fn solid_bands_are_about_half_ink() {
    for (name, sixteenths) in [("ichimatsu", 8), ("uroko", 8), ("yagasuri", 7)] {
        let b = render(name);
        assert_eq!(16 * ink(&b), sixteenths * WIDTH * b.height(), "{name}");
    }
}

/// Ten names must mean ten pictures: a mis-wired `match` arm that drew an
/// existing pattern under a new name would pass every other test here.
#[test]
fn every_pattern_draws_a_distinct_band() {
    let bands: Vec<Vec<u8>> = PATTERNS
        .iter()
        .map(|name| {
            let b = render(name);
            (0..b.height()).flat_map(|y| b.row(y).to_vec()).collect()
        })
        .collect();
    for (i, a) in bands.iter().enumerate() {
        for (j, c) in bands.iter().enumerate().skip(i + 1) {
            assert_ne!(
                a, c,
                "{} and {} draw the same band",
                PATTERNS[i], PATTERNS[j]
            );
        }
    }
}

#[test]
fn every_pattern_reaches_both_edges() {
    for name in PATTERNS {
        let b = render(name);
        assert!(
            ink_in_columns(&b, 0..8),
            "{name} leaves a blank left margin — the band is not edge-to-edge"
        );
        assert!(
            ink_in_columns(&b, WIDTH - 8..WIDTH),
            "{name} leaves a blank right margin — the band is not edge-to-edge"
        );
    }
}

/// The band must wrap: a pattern whose columns repeat at a divisor of the
/// roll width continues across the paper edge with no seam and no clipped
/// motif.
#[test]
fn every_pattern_tiles_horizontally() {
    for name in PATTERNS {
        let b = render(name);
        let period = horizontal_period(&b)
            .unwrap_or_else(|| panic!("{name} does not repeat within the 384 px width"));
        assert!(
            period <= WIDTH / 2,
            "{name} repeats only every {period} px — barely a pattern"
        );
    }
}

#[test]
fn height_option_is_respected() {
    for name in PATTERNS {
        for height in [MIN_HEIGHT, 32, 120, MAX_HEIGHT] {
            let b = render_wagara(
                name,
                WagaraOptions {
                    height,
                    ..Default::default()
                },
            )
            .expect("valid pattern");
            assert_eq!(b.height(), height as usize, "{name} at height {height}");
            assert!(ink(&b) > 0, "{name} at height {height} has no ink");
        }
    }
}

#[test]
fn scale_enlarges_the_motif() {
    for name in PATTERNS {
        let small = render_wagara(name, WagaraOptions::default()).expect("valid");
        let big = render_wagara(
            name,
            WagaraOptions {
                scale: 2,
                ..Default::default()
            },
        )
        .expect("valid");
        let (sp, bp) = (
            horizontal_period(&small).expect("scale 1 tiles"),
            horizontal_period(&big).expect("scale 2 tiles"),
        );
        assert!(
            bp > sp,
            "{name} at scale 2 repeats every {bp} px, no coarser than scale 1's {sp}"
        );
    }
}

#[test]
fn out_of_range_options_are_clamped_not_panicking() {
    // `WagaraOptions` is public, so a caller can build one the parser would
    // have rejected. Rendering clamps rather than panicking.
    let b = render_wagara(
        "seigaiha",
        WagaraOptions {
            height: 0,
            scale: 99,
        },
    )
    .expect("valid pattern");
    assert_eq!(b.height(), MIN_HEIGHT as usize);
}

#[test]
fn pattern_names_are_case_insensitive_and_aliased() {
    let rows = |b: &Bitmap| (0..b.height()).map(|y| *b.row(y)).collect::<Vec<_>>();
    for (alias, canonical) in [
        ("SEIGAIHA", "seigaiha"),
        ("  Asanoha ", "asanoha"),
        ("shippo", "shippou"),
        ("Kikko", "kikkou"),
        ("ICHIMATSU", "ichimatsu"),
        ("Yabane", "yagasuri"),
        ("YAGASURI", "yagasuri"),
        (" uroko\t", "uroko"),
        ("SayaGata", "sayagata"),
        ("KANOKO", "kanoko"),
        ("tachiwaki", "tatewaku"),
    ] {
        let a = render(alias);
        let c = render(canonical);
        assert_eq!(rows(&a), rows(&c), "{alias} should render as {canonical}");
    }
}

#[test]
fn unknown_pattern_lists_the_valid_names() {
    let err = render_wagara("nonsense", WagaraOptions::default())
        .expect_err("nonsense is not a pattern");
    let message = err.message();
    assert!(
        message.contains("nonsense"),
        "message should name the offender: {message}"
    );
    for name in PATTERNS {
        assert!(
            message.contains(name),
            "message should list {name}: {message}"
        );
    }
    assert!(matches!(err, WagaraError::UnknownPattern(_)));
}

#[test]
fn rendering_is_deterministic() {
    for name in PATTERNS {
        let a = render(name);
        let b = render(name);
        for y in 0..a.height() {
            assert_eq!(a.row(y), b.row(y), "{name} row {y} differs between renders");
        }
    }
}

#[test]
fn options_default_when_the_body_is_empty() {
    for body in ["", "\n", "   \n\t\n"] {
        assert_eq!(
            parse_wagara_options(body).expect("blank body is valid"),
            WagaraOptions::default(),
            "{body:?}"
        );
    }
}

#[test]
fn options_parse_height_and_scale() {
    let opts = parse_wagara_options("height: 60\nscale: 2").expect("valid options");
    assert_eq!(
        opts,
        WagaraOptions {
            height: 60,
            scale: 2
        }
    );
    // Keys are case-insensitive and the spacing is free-form.
    let opts = parse_wagara_options("  HEIGHT :100  \n\nScale:4\n").expect("valid options");
    assert_eq!(
        opts,
        WagaraOptions {
            height: 100,
            scale: 4
        }
    );
}

#[test]
fn options_reject_unknown_keys() {
    let err = parse_wagara_options("colour: red").expect_err("colour is not an option");
    assert!(matches!(err, WagaraError::BadOption(_)));
    let message = err.message();
    assert!(message.contains("colour"), "{message}");
    assert!(message.contains("height"), "{message}");
    assert!(message.contains("scale"), "{message}");
}

#[test]
fn options_reject_lines_without_a_colon() {
    let err = parse_wagara_options("height 60").expect_err("no colon");
    assert!(matches!(err, WagaraError::BadOption(_)));
    assert!(err.message().contains("height 60"), "{}", err.message());
}

#[test]
fn options_reject_non_numeric_values() {
    for body in ["height: tall", "scale: x2", "height: 6.5", "scale: -1"] {
        let err = parse_wagara_options(body)
            .err()
            .unwrap_or_else(|| panic!("{body:?} should be rejected"));
        assert!(matches!(err, WagaraError::BadOption(_)), "{body:?}");
        assert!(err.message().contains("whole number"), "{body:?} → {}", err.message());
    }
}

#[test]
fn options_reject_out_of_range_values() {
    for body in [
        format!("height: {}", MIN_HEIGHT - 1),
        format!("height: {}", MAX_HEIGHT + 1),
        "height: 0".to_string(),
        format!("scale: {}", MAX_SCALE + 1),
        "scale: 0".to_string(),
    ] {
        let err = parse_wagara_options(&body)
            .err()
            .unwrap_or_else(|| panic!("{body:?} should be rejected"));
        assert!(matches!(err, WagaraError::BadOption(_)), "{body:?}");
    }
}
