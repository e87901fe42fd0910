//! Text, markdown and codes on paper, set with a made-up monospace font.

use printa_ble::content::{
    dispatch, inline_bitmap, markdown_bitmap, qr_bitmap, text_bitmap, Dispatch,
};
use printa_ble::images::ResolvedImage;
use printa_ble::raster::bitmap::WIDTH;
use printa_ble::raster::faces::{Face, FaceAscent, FaceGlyph, Faces, FontStyle, Glyph};
use printa_ble::raster::markdown::refs::markdown_image_refs;
use printa_ble::raster::markdown::render::{render_markdown_with, render_markdown as markdown};
use printa_ble::raster::markdown::tables::lay_out;
use printa_ble::raster::rich::{break_lines, RichLine, Span, Style, BODY_SIZE};
use printa_ble::raster::text::{normalize, render_text as text};
use printa_ble::raster::typeset::render_rich;
use printa_ble::raster::{bitmap_to_png, render_qr as qr, Bitmap, QrError};
use printa_ble::server::{preview_markdown, preview_qr, preview_text, validate_text};
use printa_ble::web;

/// Line height for a 24 px line.
const LINE_24: usize = 32;

/// An unassigned code point — no face has it.
const TOFU: char = '\u{ABCDE}';

/// The sizes the tests use, in pixels.
const SIZES: [u32; 7] = [20, 24, 26, 30, 32, 36, 48];

/// A picture of `width` × `height` pixels, filled or hollow.
fn picture(width: u32, height: u32, hollow: bool, slanted: bool) -> Vec<u8> {
    let mut coverage = Vec::new();
    for y in 0..height {
        for x in 0..width {
            let rim = x == 0 || y == 0 || x == width - 1 || y == height - 1;
            let ink = if slanted { x == y % width } else { rim || !hollow };
            coverage.push(if ink { 255 } else { 0 });
        }
    }
    coverage
}

/// A face without a picture for the space.
fn glyph(em: u32, advance: u32, ch: Option<char>, hollow: bool, slanted: bool) -> Glyph {
    if ch == Some(' ') {
        return Glyph { advance, left: 0, bottom: 0, width: 0, height: 0, coverage: Vec::new() };
    }
    let width = advance / 64 - 3;
    let height = em / 2;
    Glyph {
        advance,
        left: 1,
        bottom: 0,
        width,
        height,
        coverage: picture(width, height, hollow, slanted),
    }
}

/// A monospace font: Latin letters advance 0.6 em, the Japanese ones of `cjk`
/// one em.
fn faces_with(cjk: &str) -> Faces {
    let mut glyphs = Vec::new();
    let mut ascents = Vec::new();
    let latin: Vec<char> = (' '..='~').chain(['•', '…', '—', 'é']).collect();
    for px in SIZES {
        let size = px * 64;
        for font in [FontStyle::Regular, FontStyle::Bold, FontStyle::Italic] {
            let advance = (size * 6 + 5) / 10;
            let bold = font == FontStyle::Bold;
            let italic = font == FontStyle::Italic;
            for &ch in &latin {
                glyphs.push(FaceGlyph {
                    face: Face::Latin(font),
                    size,
                    ch: Some(ch),
                    glyph: glyph(px, advance, Some(ch), !bold, italic),
                });
            }
            glyphs.push(FaceGlyph {
                face: Face::Latin(font),
                size,
                ch: None,
                glyph: glyph(px, advance, None, true, false),
            });
            ascents.push(FaceAscent { font, size, ascent: size * 102 / 100 });
        }
        for ch in cjk.chars() {
            glyphs.push(FaceGlyph {
                face: Face::Cjk,
                size,
                ch: Some(ch),
                glyph: glyph(px, size, Some(ch), false, false),
            });
        }
    }
    Faces { glyphs, ascents }
}

fn faces() -> Faces {
    faces_with("和柄世界日")
}

fn render_text(s: &str, px: u32) -> Bitmap {
    text(s, px * 64, &faces())
}

fn render_markdown(md: &str) -> Bitmap {
    markdown(md, &faces())
}

fn ink_count(b: &Bitmap) -> usize {
    (0..b.height())
        .flat_map(|y| (0..WIDTH).map(move |x| (x, y)))
        .filter(|&(x, y)| b.get(x, y))
        .count()
}

fn has_ink(b: &Bitmap) -> bool {
    ink_count(b) > 0
}

fn ink_in(b: &Bitmap, xs: std::ops::Range<usize>) -> bool {
    (0..b.height()).any(|y| xs.clone().any(|x| b.get(x, y)))
}

fn ink_before(b: &Bitmap, x_limit: usize) -> bool {
    ink_in(b, 0..x_limit)
}

fn rows(b: &Bitmap) -> Vec<Vec<u8>> {
    (0..b.height()).map(|y| b.row(y).to_vec()).collect()
}

// ---------------------------------------------------------------------------
// Plain text.
// ---------------------------------------------------------------------------

#[test]
fn text_renders_nonempty_bitmap_with_ink() {
    let b = render_text("Hello", 24);
    assert!(b.height() > 0);
    assert!(ink_count(&b) > 0, "expected some black pixels");
}

#[test]
fn text_wraps_long_lines() {
    let short = render_text("hi", 24);
    let long = render_text(&"word ".repeat(40), 24);
    assert!(long.height() > short.height() * 3);
}

#[test]
fn text_empty_text_gives_empty_bitmap() {
    assert_eq!(render_text("", 24).height(), 0);
}

#[test]
fn text_newline_forces_hard_break() {
    let one = render_text("a", 24);
    let two = render_text("a\nb", 24);
    // Two lines = ceil(2 * line_height), one line = ceil(line_height).
    assert!(two.height() > one.height(), "{} vs {}", two.height(), one.height());
    assert!(two.height() >= one.height() * 2 - 1);
}

#[test]
fn text_overlong_word_breaks_mid_word() {
    let one_line = render_text("M", 24);
    let long = render_text(&"M".repeat(60), 24);
    assert!(long.height() > one_line.height());
}

#[test]
fn japanese_text_renders_ink() {
    let b = render_text("和柄", 24);
    let tofu = render_text(&TOFU.to_string().repeat(2), 24);
    assert!(ink_count(&tofu) > 0, "tofu baseline should have ink");
    assert_ne!(rows(&b), rows(&tofu), "kanji rendered as tofu boxes");
    // Two kanji at 24 px are far denser than two hollow boxes.
    assert!(
        ink_count(&b) > ink_count(&tofu),
        "kanji ink {} vs tofu ink {}",
        ink_count(&b),
        ink_count(&tofu)
    );
    // Full-width: two glyphs at 1 em each occupy ~48 px.
    assert!(ink_in(&b, 24..48), "second kanji is missing");
    assert!(!ink_in(&b, 50..WIDTH), "ink past the second kanji");
}

#[test]
fn mixed_latin_and_japanese_shares_a_line() {
    let b = render_text("Hello 世界", 24);
    assert_eq!(b.height(), LINE_24, "mixed text should be one line");
    assert!(ink_in(&b, 0..70), "Latin half has no ink");
    // "Hello " is 6 half-width glyphs (86 px); two full-width kanji then
    // run to ~134 px. Half-width tofu would stop short of 116 px.
    assert!(ink_in(&b, 120..135), "Japanese half has no ink");
    assert!(!ink_in(&b, 140..WIDTH), "ink past the second kanji");
}

#[test]
fn cjk_wraps_without_panic() {
    // 200 kanji with no spaces: every character is a break opportunity,
    // so the mid-word break path must split between characters.
    let b = render_text(&"日".repeat(200), 24);
    // 384 px / 24 px per glyph = 16 per line, 200 chars = 13 lines.
    let thirteen_lines = (24.0f32 * 1.3 * 13.0).ceil() as usize;
    assert_eq!(b.height(), thirteen_lines, "unexpected line count");
    assert!(ink_count(&b) > 0);
    // Nothing may be clipped off the right edge: the 16th glyph of a
    // full line ends exactly at 384, so the last column stays blank.
    assert!(!ink_in(&b, WIDTH - 1..WIDTH), "ink at the right edge");
}

#[test]
fn cjk_advance_is_wider_than_latin() {
    // Twenty Latin monospace glyphs (0.6 em) fit on one 384 px line;
    // twenty full-width kanji (1 em) cannot. This only holds if layout
    // takes the advance from the face that renders the glyph.
    let latin = render_text(&"M".repeat(20), 24);
    let kanji = render_text(&"日".repeat(20), 24);
    assert_eq!(latin.height(), LINE_24);
    assert!(
        kanji.height() > latin.height(),
        "kanji advance not wider: {} vs {}",
        kanji.height(),
        latin.height()
    );
}

#[test]
fn line_ends_and_tabs_are_made_uniform() {
    let normal: String = normalize("a\r\nb\rc\td\r\r\n").iter().collect();
    assert_eq!(normal, "a\nb\nc    d\n\n");
    assert_eq!(rows(&render_text("a\r\nb", 24)), rows(&render_text("a\nb", 24)));
    assert_eq!(rows(&render_text("a\tb", 24)), rows(&render_text("a    b", 24)));
}

#[test]
fn a_blank_line_of_text_is_as_tall_as_its_size() {
    // ceil(1.3 * 48 * 3) rows: the empty line in the middle counts in full.
    assert_eq!(render_text("a\n\nb", 48).height(), 188);
}

#[test]
fn twenty_six_characters_fit_at_24_px_and_thirty_two_at_20() {
    assert_eq!(render_text(&"M".repeat(26), 24).height(), 32);
    assert_eq!(render_text(&"M".repeat(27), 24).height(), 63);
    assert_eq!(render_text(&"M".repeat(32), 20).height(), 26);
    assert_eq!(render_text(&"M".repeat(33), 20).height(), 52);
}

fn span(s: &str, font: FontStyle, px: u32) -> Span {
    Span { text: s.to_string(), style: Style::new(font, px * 64) }
}

fn broken(line: RichLine) -> Vec<String> {
    break_lines(&vec![line], &faces())
        .iter()
        .map(|row| row.cells.iter().map(|c| c.ch).collect())
        .collect()
}

#[test]
fn words_move_to_the_next_row_whole() {
    let line = |s: &str| RichLine { spans: vec![span(s, FontStyle::Regular, 24)], indent: 0 };
    assert_eq!(
        broken(line("the quick brown fox jumps over the dog")),
        vec!["the quick brown fox jumps", "over the dog"]
    );
    // The spaces at a break are dropped, however many there are.
    assert_eq!(
        broken(line("the quick brown fox jumps     over")),
        vec!["the quick brown fox jumps", "over"]
    );
    // A word that fits no row is broken where the row is full.
    assert_eq!(
        broken(line(&("x".repeat(26) + "yz"))),
        vec!["x".repeat(26), "yz".to_string()]
    );
    assert_eq!(broken(line("")), vec![""]);
}

#[test]
fn wrapping_loses_nothing_but_spaces() {
    let source = "lorem  ipsum dolor sit amet, consectetur adipiscing elit sed doeiusmodtemporincididuntutlabore";
    let line = RichLine { spans: vec![span(source, FontStyle::Regular, 24)], indent: 40 };
    let printed: String = broken(line).concat();
    assert_eq!(printed.replace(' ', ""), source.replace(' ', ""));
}

#[test]
fn rows_stay_right_of_the_indent() {
    let line = RichLine {
        spans: vec![span(&"word ".repeat(30), FontStyle::Regular, 24)],
        indent: 40,
    };
    let b = render_rich(&vec![line], &faces());
    assert!(has_ink(&b));
    assert!(!ink_before(&b, 40));
}

#[test]
fn mixed_sizes_share_a_baseline() {
    let line = RichLine {
        spans: vec![span("Ag", FontStyle::Regular, 24), span("Ag", FontStyle::Regular, 36)],
        indent: 0,
    };
    let b = render_rich(&vec![line], &faces());
    // 1.3 × 36 rounded up.
    assert_eq!(b.height(), 47);
    // The pictures stand on the baseline: both end on the same row.
    let last = |xs: std::ops::Range<usize>| {
        (0..b.height()).rev().find(|&y| xs.clone().any(|x| b.get(x, y))).unwrap()
    };
    assert_eq!(last(0..28), last(30..70));
    assert_eq!(last(0..28), 36);
}

#[test]
fn struck_text_has_one_line_through_it() {
    let mut struck = span("a b", FontStyle::Regular, 24);
    struck.style.strike = true;
    let b = render_rich(&vec![RichLine { spans: vec![struck], indent: 0 }], &faces());
    // The baseline is row 24; the line stands 0.35 × 24 = 8 px above it.
    assert!((0..43).all(|x| b.get(x, 16) && b.get(x, 17)));
    assert!(!b.get(43, 16));
    let plain = render_text("a b", 24);
    assert_ne!(rows(&b), rows(&plain));
}

#[test]
fn nothing_to_set_gives_no_rows() {
    assert_eq!(render_rich(&vec![], &faces()).height(), 0);
    // A line without spans is as tall as body text.
    assert_eq!(render_rich(&vec![RichLine::default()], &faces()).height(), 32);
    assert_eq!(Style::default(), Style::new(FontStyle::Regular, BODY_SIZE));
}

// ---------------------------------------------------------------------------
// Markdown.
// ---------------------------------------------------------------------------

#[test]
fn heading_taller_than_body() {
    let heading = render_markdown("# Hi");
    let body = render_markdown("Hi");
    assert!(
        heading.height() > body.height(),
        "heading {} should be taller than body {}",
        heading.height(),
        body.height()
    );
}

#[test]
fn bold_differs_from_plain() {
    let bold = render_markdown("**Hi**");
    let plain = render_markdown("Hi");
    assert!(has_ink(&bold), "bold render has no ink");
    assert!(has_ink(&plain), "plain render has no ink");
    assert_ne!(rows(&bold), rows(&plain), "bold should differ from plain");
}

#[test]
fn list_items_indented() {
    let b = render_markdown("- item");
    assert!(has_ink(&b), "list item has no ink");
    assert!(!ink_before(&b, 24), "ink left of the 24 px list indent");
}

#[test]
fn ordered_list_numbers() {
    let two = render_markdown("1. a\n2. b");
    let one = render_markdown("1. a");
    assert!(has_ink(&two), "ordered list has no ink");
    assert!(
        two.height() > one.height(),
        "two items {} should be taller than one {}",
        two.height(),
        one.height()
    );
}

#[test]
fn code_block_preserves_lines() {
    let three = render_markdown("```\na\nb\nc\n```");
    let one = render_markdown("```\na\n```");
    assert!(has_ink(&three), "code block has no ink");
    assert!(
        three.height() > one.height(),
        "three code lines {} should be taller than one {}",
        three.height(),
        one.height()
    );
    // Three code lines at 20 px, 1.3 line height each.
    let expected = (3.0 * 20.0 * 1.3) as usize;
    assert!(
        three.height() >= expected,
        "height {} does not cover three 20 px code lines ({expected})",
        three.height()
    );
}

#[test]
fn hr_renders_full_width_line() {
    let b = render_markdown("---");
    let full_row = (0..b.height()).any(|y| b.get(0, y) && b.get(191, y) && b.get(383, y));
    assert!(full_row, "no full-width black row found for the rule");
}

#[test]
fn empty_markdown_gives_empty_bitmap() {
    assert_eq!(render_markdown("").height(), 0);
}

#[test]
fn paragraph_wraps() {
    let long = render_markdown(&"word ".repeat(30));
    let short = render_markdown("word");
    assert!(
        long.height() > short.height(),
        "long paragraph {} should wrap taller than short {}",
        long.height(),
        short.height()
    );
}

#[test]
fn blockquote_indented() {
    let b = render_markdown("> quote");
    assert!(has_ink(&b), "blockquote has no ink");
    assert!(!ink_before(&b, 24), "ink left of the 24 px quote indent");
}

#[test]
fn blank_pages_have_no_rows() {
    assert_eq!(render_markdown("   \n \n\n").height(), 0);
}

#[test]
fn headings_have_a_size_for_each_level() {
    for (md, height) in [
        ("# Hi", 47),
        ("## Hi", 39),
        ("### Hi", 34),
        ("#### Hi", 34),
        ("###### Hi", 34),
        ("Hi\n===", 47),
        ("Hi\n---", 39),
    ] {
        assert_eq!(render_markdown(md).height(), height, "{md}");
    }
}

#[test]
fn heading_wins_over_bold_and_bold_over_italic() {
    assert_eq!(rows(&render_markdown("***x***")), rows(&render_markdown("**x**")));
    assert_eq!(rows(&render_markdown("# *x*")), rows(&render_markdown("# x")));
    assert_eq!(rows(&render_markdown("> **x**")), rows(&render_markdown("> ***x***")));
    assert_ne!(rows(&render_markdown("*x*")), rows(&render_markdown("x")));
    assert_ne!(rows(&render_markdown("~~x~~")), rows(&render_markdown("x")));
}

#[test]
fn inline_code_looks_like_text() {
    assert_eq!(rows(&render_markdown("`x`")), rows(&render_markdown("x")));
}

#[test]
fn soft_breaks_are_spaces_and_hard_breaks_lines() {
    assert_eq!(rows(&render_markdown("a\nb")), rows(&render_markdown("a b")));
    assert_eq!(render_markdown("a  \nb").height(), 63);
    assert_eq!(render_markdown("a\\\nb").height(), 63);
}

#[test]
fn lists_nest_by_steps() {
    let b = render_markdown("- a\n  - b\n    - c");
    assert_eq!(b.height(), 94);
    let left = |from: usize, to: usize| {
        (0..WIDTH).find(|&x| (from..to).any(|y| b.get(x, y))).unwrap()
    };
    assert_eq!(left(0, 31), 25);
    assert_eq!(left(32, 62), 49);
    assert_eq!(left(63, 94), 73);
}

#[test]
fn numbered_lists_start_where_they_say() {
    assert_eq!(rows(&render_markdown("5. a\n6. b")), rows(&render_markdown("5. a\n9. b")));
    assert_ne!(render_markdown("1. a").height(), 0);
    // Ten is wider than nine by one character.
    let nine = render_markdown("9. a");
    let ten = render_markdown("10. a");
    let right = |b: &Bitmap| {
        (0..WIDTH).rev().find(|&x| (0..b.height()).any(|y| b.get(x, y))).unwrap()
    };
    assert!((14..=15).contains(&(right(&ten) - right(&nine))));
}

#[test]
fn loose_lists_look_like_tight_ones() {
    assert_eq!(rows(&render_markdown("- a\n\n- b")), rows(&render_markdown("- a\n- b")));
}

#[test]
fn task_markers_take_the_place_of_the_prefix() {
    assert_eq!(rows(&render_markdown("1. [ ] t")), rows(&render_markdown("- [ ] t")));
    assert_eq!(render_markdown("- [x] done").height(), 32);
    let b = render_markdown("- [x] done");
    // "[x] done" at indent 24: eight characters of 14.4 px each.
    assert!(ink_in(&b, 24..139));
    assert!(!ink_in(&b, 140..WIDTH));
}

#[test]
fn code_keeps_its_lines_and_tabs() {
    assert_eq!(render_markdown("```\na\n\n\nb\n```").height(), 104);
    assert_eq!(
        rows(&render_markdown("```\n\tx\n```")),
        rows(&render_markdown("```\n    x\n```"))
    );
    assert!(!ink_before(&render_markdown("```\nx\n```"), 16));
    assert_eq!(
        rows(&render_markdown("```rust\nx\n```")),
        rows(&render_markdown("```\nx\n```"))
    );
}

#[test]
fn blank_lines_separate_blocks_of_text() {
    // Heading, blank line, paragraph, blank line, paragraph: 46.8 + 4 × 31.2.
    assert_eq!(render_markdown("# a\n\nb\n\nc").height(), 172);
}

#[test]
fn rules_are_solid_and_tear_markers_dashed() {
    for md in ["---", "***", "___", "----", "> ---"] {
        let b = render_markdown(md);
        assert_eq!(b.height(), 26, "{md}");
        for y in 0..26 {
            let black = y == 12 || y == 13;
            assert!((0..WIDTH).all(|x| b.get(x, y) == black), "{md} row {y}");
        }
    }
    for md in ["- - -", "* * *", "_ _ _", "-  -  -"] {
        let b = render_markdown(md);
        assert_eq!(b.height(), 26, "{md}");
        assert!((0..WIDTH).all(|x| b.get(x, 12) == (x % 16 < 8)), "{md}");
        assert!((0..WIDTH).all(|x| !b.get(x, 11) && !b.get(x, 14)), "{md}");
    }
}

#[test]
fn rules_carry_their_own_margins() {
    let b = render_markdown("a\n\n---\n\nb");
    // No blank line is left on either side of the rule.
    assert_eq!(b.height(), 32 + 26 + 32);
}

fn table(rows: &[&[&str]]) -> Vec<String> {
    let cells: Vec<Vec<Vec<char>>> = rows
        .iter()
        .map(|row| row.iter().map(|cell| cell.chars().collect()).collect())
        .collect();
    lay_out(&cells).iter().map(|line| line.iter().collect()).collect()
}

#[test]
fn tables_are_laid_out_as_text() {
    assert_eq!(
        table(&[
            &["Item", "Qty", "Price"],
            &["Espresso", "2", "5.00"],
            &["Oat flat white", "1", "4.20"],
        ]),
        vec![
            "Item            Qty  Price",
            "--------------  ---  -----",
            "Espresso        2    5.00 ",
            "Oat flat white  1    4.20 ",
        ]
    );
}

#[test]
fn wide_tables_shrink_their_widest_column() {
    let lines = table(&[&["name", "x"], &["a name that is far too long for the paper", "1"]]);
    assert_eq!(lines[2].chars().count(), 32);
    assert_eq!(lines[2], "a name that is far too long …  1");
}

#[test]
fn ragged_rows_are_evened_out() {
    assert_eq!(
        table(&[&["a", "b"], &["1"], &["1", "2", "3"]]),
        vec!["a  b", "-  -", "1   ", "1  2"]
    );
    assert!(table(&[&[]]).is_empty());
    assert!(table(&[]).is_empty());
}

#[test]
fn seven_columns_stop_at_three_characters() {
    let lines = table(&[&["aaaaa"; 7]]);
    assert_eq!(lines[0], "aa…  aa…  aa…  aa…  aa…  aa…  aa…");
    let lines = table(&[&["aaaaa"; 6]]);
    assert!(lines[0].chars().count() <= 32, "{}", lines[0]);
}

#[test]
fn tables_render_at_code_size() {
    let md = "| Item | Qty |\n|---|---|\n| Tea | 2 |\n";
    // Header, dashes and one row at 26 px each.
    assert_eq!(render_markdown(md).height(), 78);
    // Markup in cells is flattened, alignment ignored.
    assert_eq!(
        rows(&render_markdown("| **a** | b |\n|:---:|---:|\n| `c` | [d](x) |\n")),
        rows(&render_markdown("| a | b |\n|---|---|\n| c | d |\n"))
    );
    assert_eq!(
        rows(&render_markdown("| a |\n|---|\n| ![pic](x.png) |\n")),
        rows(&render_markdown("| a |\n|---|\n| [image: pic] |\n"))
    );
}

#[test]
fn qr_fences_become_codes() {
    let b = render_markdown("```qr\nhttps://example.com/order/42\n```");
    assert_eq!(b.height(), 418);
    assert!((0..24).all(|y| (0..WIDTH).all(|x| !b.get(x, y))));
    // Empty data is a version-1 code; the info string is read in any case.
    assert_eq!(render_markdown("```qr\n```").height(), 425);
    assert_eq!(render_markdown("```QR code\n```").height(), 425);
    // Only the first word counts, and only as a whole.
    assert_eq!(render_markdown("```qrcode\nx\n```").height(), 26);
}

#[test]
fn barcode_fences_become_bars() {
    let b = render_markdown("```Barcode utf8\nORDER-42\n```");
    assert_eq!(b.height(), 128);
    assert!((0..WIDTH).any(|x| (24..104).all(|y| b.get(x, y))));
    assert!((0..24).all(|y| (0..WIDTH).all(|x| !b.get(x, y))));
}

#[test]
fn wagara_fences_become_bands() {
    let b = render_markdown("```wagara seigaiha\n```");
    assert_eq!(b.height(), 56 + 48);
    let b = render_markdown("```wagara Ichimatsu\nheight: 100\n```");
    assert_eq!(b.height(), 100 + 48);
}

/// The bitmap of an error message: code text at 16 px, 24 px of white around.
fn fault(message: &str) -> Vec<Vec<u8>> {
    let lines = vec![RichLine { spans: vec![span(message, FontStyle::Regular, 20)], indent: 16 }];
    let shown = render_rich(&lines, &faces());
    let blank = vec![vec![0u8; 48]; 24];
    [blank.clone(), rows(&shown), blank].concat()
}

#[test]
fn failed_fences_print_their_error() {
    let long = format!("```qr\n{}\n```", "x".repeat(4000));
    assert_eq!(rows(&render_markdown(&long)), fault("data too long to fit in a QR code"));
    assert_eq!(
        rows(&render_markdown("```barcode\n\n```")),
        fault("barcode data is empty (after trimming whitespace)")
    );
    assert_eq!(
        rows(&render_markdown("```barcode\ncafé\n```")),
        fault("barcode data must be printable ASCII")
    );
    let long = format!("```barcode\n{}\n```", "1".repeat(29));
    assert_eq!(rows(&render_markdown(&long)), fault("barcode data too long to fit the paper"));
    assert_eq!(
        rows(&render_markdown("```wagara seigaiha\nheight: 6\n```")),
        fault("wagara height must be between 16 and 400, got 6")
    );
    assert_eq!(
        rows(&render_markdown("```wagara plaid\n```")),
        fault(
            "unknown wagara pattern \"plaid\" (valid: asanoha, ichimatsu, kanoko, kikkou, \
             sayagata, seigaiha, shippou, tatewaku, uroko, yagasuri)"
        )
    );
    // The rest of the document is still there.
    let b = render_markdown("before\n\n```barcode\n\n```\n\nafter");
    assert!(b.height() > 32 + 48 + 32);
}

fn striped(height: usize) -> Bitmap {
    let mut b = Bitmap::new(height);
    for x in 0..WIDTH {
        b.set(x, 0, true);
    }
    b
}

#[test]
fn resolved_images_are_stacked_with_margins() {
    let images = vec![ResolvedImage { dest: "cat.png".to_string(), bitmap: striped(40) }];
    let b = render_markdown_with("![Cat](cat.png)", &images, &faces());
    assert_eq!(b.height(), 56);
    assert!((0..WIDTH).all(|x| b.get(x, 8) && !b.get(x, 7) && !b.get(x, 9)));
    // In a table cell even a resolved image is a placeholder.
    let md = "| a |\n|---|\n| ![pic](cat.png) |\n";
    assert_eq!(rows(&render_markdown_with(md, &images, &faces())), rows(&render_markdown(md)));
}

#[test]
fn unresolved_images_are_placeholders() {
    for (md, placeholder) in [
        ("![Cat](cat.png)", "[image: Cat]"),
        ("![](cat.png)", "[image: cat.png]"),
        ("![]()", "[image: ?]"),
        ("![*a* b](x.png)", "[image: a b]"),
        ("![a ![b](b.png)](a.png)", "[image: a b]"),
    ] {
        let lines =
            vec![RichLine { spans: vec![span(placeholder, FontStyle::Italic, 24)], indent: 0 }];
        assert_eq!(rows(&render_markdown(md)), rows(&render_rich(&lines, &faces())), "{md}");
    }
    assert!(!ink_before(&render_markdown("> ![Cat](cat.png)"), 24));
}

#[test]
fn references_are_listed_once_and_in_order() {
    let md = "![a](b.png) ![](a.png)\n\n![again](b.png) ![]() ![x ![y](y.png)](z.png)";
    assert_eq!(markdown_image_refs(md), vec!["b.png", "a.png", "z.png"]);
    assert!(markdown_image_refs("# hi\n\njust text").is_empty());
}

#[test]
fn markup_that_is_not_printed_is_dropped() {
    assert_eq!(render_markdown("<div>hi</div>").height(), 0);
    assert_eq!(rows(&render_markdown("a <b>c</b> d")), rows(&render_markdown("a c d")));
    assert_eq!(rows(&render_markdown("[text](http://x)")), rows(&render_markdown("text")));
    assert_eq!(rows(&render_markdown("<http://x>")), rows(&render_markdown("http://x")));
}

// ---------------------------------------------------------------------------
// QR codes.
// ---------------------------------------------------------------------------

#[test]
fn codes_are_scaled_to_the_paper_and_centered() {
    let b = qr("https://example.com/order/42", None, &faces()).unwrap();
    // A version-3 code: 37 modules with the quiet zone, ten pixels each.
    assert_eq!(b.height(), 370 + 32);
    // The finder patterns stand in three corners, seven modules wide.
    let dark = |mx: usize, my: usize| b.get(7 + 40 + 10 * mx + 5, 16 + 40 + 10 * my + 5);
    for (cx, cy) in [(0, 0), (22, 0), (0, 22)] {
        for i in 0..7 {
            assert!(dark(cx + i, cy) && dark(cx + i, cy + 6));
            assert!(dark(cx, cy + i) && dark(cx + 6, cy + i));
        }
        assert!(!dark(cx + 1, cy + 1));
        assert!(dark(cx + 3, cy + 3));
    }
    assert!(!ink_in(&b, 0..47));
    assert!(!ink_in(&b, 337..WIDTH));
}

#[test]
fn captions_stand_below_the_code() {
    let bare = qr("https://example.com", None, &faces()).unwrap();
    let captioned = qr("https://example.com", Some("scan me"), &faces()).unwrap();
    assert_eq!(captioned.height(), bare.height() + 32);
    assert_eq!(rows(&captioned)[bare.height()..], rows(&render_text("scan me", 24))[..]);
    assert_eq!(rows(&captioned)[..bare.height()], rows(&bare)[..]);
}

#[test]
fn data_that_fits_no_version_is_refused() {
    let e = qr(&"x".repeat(4000), None, &faces()).unwrap_err();
    assert_eq!(e, QrError::TooLong);
    assert_eq!(e.message(), "data too long to fit in a QR code");
    assert_eq!(
        qr_bitmap(&"x".repeat(4000), None, &faces()).unwrap_err(),
        "cannot render QR code: data too long to fit in a QR code"
    );
}

// ---------------------------------------------------------------------------
// The web page.
// ---------------------------------------------------------------------------

const PNG_MAGIC: [u8; 8] = [0x89, b'P', b'N', b'G', b'\r', b'\n', 0x1A, b'\n'];

#[test]
fn text_renders_with_png_preview() {
    let bitmap = web::render_text("hello world", 32 * 64, &faces()).unwrap();
    assert!(bitmap.height() > 0);
    let png = bitmap.to_png();
    assert_eq!(&png[..8], &PNG_MAGIC);
}

#[test]
fn text_bad_sizes_error() {
    for size in [0, 129 * 64, u32::MAX] {
        let err = web::render_text("x", size, &faces()).unwrap_err();
        assert!(err.contains("size"), "unexpected message: {err}");
    }
}

#[test]
fn markdown_heading_taller_than_paragraph() {
    let heading = web::render_markdown("# Title", &faces());
    let paragraph = web::render_markdown("Title", &faces());
    assert!(heading.height() > paragraph.height());
}

#[test]
fn qr_renders() {
    let bitmap = web::render_qr("https://example.com", Some("caption"), &faces()).unwrap();
    assert!(bitmap.height() > 0);
    assert_eq!(&bitmap.to_png()[..8], &PNG_MAGIC);
}

#[test]
fn qr_too_long_errors() {
    let err = web::render_qr(&"x".repeat(8000), None, &faces()).unwrap_err();
    assert!(err.contains("too long"), "unexpected message: {err}");
}

#[test]
fn extend_blank_grows_height() {
    let mut bitmap = web::render_text("x", 24 * 64, &faces()).unwrap();
    let before = bitmap.height();
    bitmap.extend_blank(40);
    assert_eq!(bitmap.height(), before + 40);
}

// ---------------------------------------------------------------------------
// The print server.
// ---------------------------------------------------------------------------

fn is_png(b: &Bitmap) -> bool {
    bitmap_to_png(b).starts_with(&PNG_MAGIC)
}

#[test]
fn preview_text_returns_png() {
    assert!(is_png(&preview_text("hello", None, &faces()).unwrap()));
}

#[test]
fn preview_markdown_returns_png() {
    assert!(is_png(&preview_markdown("# Hi\n\n- a\n- b", &vec![], &faces()).unwrap()));
    let e = preview_markdown(" \n", &vec![], &faces()).unwrap_err();
    assert_eq!((e.status, e.message.as_str()), (400, "content must not be empty"));
}

#[test]
fn preview_qr_returns_png() {
    assert!(is_png(&preview_qr("https://example.com", Some("scan me"), &faces()).unwrap()));
}

#[test]
fn preview_qr_too_long_is_400() {
    let e = preview_qr(&"x".repeat(4000), None, &faces()).unwrap_err();
    assert_eq!(e.status, 400);
    assert_eq!(e.message, "data too long to fit in a QR code");
}

#[test]
fn preview_text_empty_is_400() {
    let e = preview_text("  ", None, &faces()).unwrap_err();
    assert_eq!((e.status, e.message.as_str()), (400, "content must not be empty"));
}

#[test]
fn preview_text_bad_size_is_400() {
    for size in [0, u32::MAX] {
        let e = preview_text("x", Some(size), &faces()).unwrap_err();
        assert_eq!(e.status, 400);
        assert_eq!(e.message, "size must be greater than 0 and at most 128");
    }
    assert_eq!(validate_text("x", None).unwrap(), 24 * 64);
    assert_eq!(validate_text("x", Some(128 * 64)).unwrap(), 128 * 64);
}

// ---------------------------------------------------------------------------
// The command line.
// ---------------------------------------------------------------------------

const DOC: &str = "# Heading\n\nA paragraph with **bold** in it.\n";

fn inline(text: &str, markdown: bool) -> Result<Bitmap, String> {
    inline_bitmap(text, markdown, 24 * 64, &vec![], &faces())
}

/// The same piped bytes must render as a document with `-m` and as literal
/// source without it.
#[test]
fn markdown_flag_changes_how_piped_text_renders() {
    let md = inline(DOC, true).unwrap();
    let plain = inline(DOC, false).unwrap();
    assert_ne!(rows(&md), rows(&plain));
}

/// A heading is set in a larger face than body text, so it occupies more
/// rows as markdown than the same characters typed out literally.
#[test]
fn markdown_heading_renders_taller_than_the_same_text_plain() {
    let md = inline("# Heading", true).unwrap();
    let plain = inline("# Heading", false).unwrap();
    assert!(
        md.height() > plain.height(),
        "markdown {} rows, plain {} rows",
        md.height(),
        plain.height()
    );
}

#[test]
fn empty_input_refuses_to_print_in_either_mode() {
    for markdown in [true, false] {
        assert!(inline("   \n\t\n", markdown).is_err());
    }
    assert_eq!(text_bitmap("", 1536, &faces()).unwrap_err(), "nothing to print");
    assert_eq!(markdown_bitmap("\u{3000}", &vec![], &faces()).unwrap_err(), "nothing to print");
}

/// Headings are set in larger faces than body text, so a document that is
/// mostly headings is unmistakably taller rendered as markdown than as the
/// literal source.
#[test]
fn piped_markdown_renders_taller_than_the_same_bytes_as_plain_text() {
    let doc = "# Title\n## Section\n### Detail\n";
    let md = inline(doc, true).unwrap().height();
    let plain = inline(doc, false).unwrap().height();
    assert!(md > plain, "markdown {md}px, plain {plain}px");
}

#[test]
fn previews_show_the_feed_and_one_copy() {
    match dispatch(striped(10), true, 40, 3) {
        Dispatch::Preview { note, png } => {
            assert_eq!(
                note.as_deref(),
                Some("note: preview renders a single copy; --copies is ignored")
            );
            let img = image::load_from_memory(&png).unwrap().to_luma8();
            assert_eq!((img.width(), img.height()), (384, 50));
            assert_eq!(img.get_pixel(0, 0).0[0], 0);
            assert_eq!(img.get_pixel(0, 49).0[0], 255);
        }
        Dispatch::Print(_) => panic!("a preview must not print"),
    }
    assert!(matches!(
        dispatch(striped(10), true, 0, 1),
        Dispatch::Preview { note: None, .. }
    ));
    match dispatch(striped(10), false, 40, 3) {
        Dispatch::Print(b) => assert_eq!(b.height(), 10),
        Dispatch::Preview { .. } => panic!("nobody asked for a preview"),
    }
}

#[test]
fn markup_that_makes_no_difference_on_paper() {
    for w in ["w", "Hello", "abcdefghijklmnopqrstuvwxyz", "ZYXWVUTSRQPONMLKJIHGFEDCBA"] {
        for (marked, plainer) in [
            (format!("***{w}***"), format!("**{w}**")),
            (format!("`{w}`"), w.to_string()),
            (format!("[{w}](http://u)"), w.to_string()),
            (format!("#### {w}"), format!("### {w}")),
            (format!("##### {w}"), format!("### {w}")),
            (format!("###### {w}"), format!("### {w}")),
            (format!("{w}\n==="), format!("# {w}")),
            (format!("- {w}\n\n- {w}"), format!("- {w}\n- {w}")),
        ] {
            assert_eq!(
                rows(&render_markdown(&marked)),
                rows(&render_markdown(&plainer)),
                "{marked:?} and {plainer:?}"
            );
        }
        assert_ne!(rows(&render_markdown(&format!("**{w}**"))), rows(&render_markdown(w)));
    }
}

/// The events of a text, in short: elements by the names of their tags.
fn events(md: &str) -> Vec<String> {
    let on = pulldown_cmark::Options::ENABLE_STRIKETHROUGH
        | pulldown_cmark::Options::ENABLE_TASKLISTS
        | pulldown_cmark::Options::ENABLE_TABLES;
    pulldown_cmark::Parser::new_ext(md, on)
        .map(|e| match e {
            pulldown_cmark::Event::Start(t) => format!("+{:?}", t.to_end()),
            pulldown_cmark::Event::End(t) => format!("-{t:?}"),
            e => format!("{e:?}"),
        })
        .collect()
}

#[test]
fn simple_markup_has_the_events_of_that_markup() {
    for w in ["w", "Hello", "aZ", "https", "setext"] {
        let text = format!("Text(Borrowed({w:?}))");
        let around = |inside: Vec<String>| {
            let mut all = vec!["+Paragraph".to_string()];
            all.extend(inside);
            all.push("-Paragraph".to_string());
            all
        };
        let list = |events: &[&str]| events.iter().map(|e| e.to_string()).collect::<Vec<_>>();
        assert_eq!(events(w), around(vec![text.clone()]));
        assert_eq!(events(&format!("`{w}`")), around(vec![format!("Code(Borrowed({w:?}))")]));
        assert_eq!(
            events(&format!("[{w}](http://u)")),
            around(list(&["+Link", &text, "-Link"]))
        );
        assert_eq!(events(&format!("**{w}**")), around(list(&["+Strong", &text, "-Strong"])));
        assert_eq!(
            events(&format!("***{w}***")),
            around(list(&["+Emphasis", "+Strong", &text, "-Strong", "-Emphasis"]))
        );
        for level in 1..=6 {
            assert_eq!(
                events(&format!("{} {w}", "#".repeat(level))),
                list(&[&format!("+Heading(H{level})"), &text, &format!("-Heading(H{level})")])
            );
        }
        assert_eq!(
            events(&format!("{w}\n===")),
            list(&["+Heading(H1)", &text, "-Heading(H1)"])
        );
        assert_eq!(
            events(&format!("- {w}\n- {w}")),
            list(&["+List(false)", "+Item", &text, "-Item", "+Item", &text, "-Item", "-List(false)"])
        );
        let item = around(vec![text.clone()]);
        let mut loose = list(&["+List(false)", "+Item"]);
        loose.extend(item.clone());
        loose.extend(list(&["-Item", "+Item"]));
        loose.extend(item);
        loose.extend(list(&["-Item", "-List(false)"]));
        assert_eq!(events(&format!("- {w}\n\n- {w}")), loose);
    }
}
