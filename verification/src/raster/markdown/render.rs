//! Drawing the blocks of a document and stacking them.
//!
//! Graphic fences stand between 24 px of white: each declares what it draws
//! itself and is padded to that. A payload that cannot be drawn prints its error
//! message as code text between the same margins, so a bad code never costs the
//! reader the rest of the document.

use crate::images::ResolvedImage;
use crate::raster::barcode::{render_barcode, BarcodeError};
use crate::raster::bitmap::{Bitmap, WIDTH};
use crate::raster::faces::{Faces, FontStyle};
use crate::raster::markdown::events::{parse_marks, parse_words, Mark, Word};
use crate::raster::markdown::lower::{lower, MdBlock};
use crate::raster::markdown::model::{CODE_INDENT, CODE_SIZE};
use crate::raster::qr::render_qr;
use crate::raster::rich::{RichLine, Style};
use crate::raster::stack::{append_blank, append_rows, stack};
use crate::raster::text::make_line;
use crate::raster::typeset::render_rich;
use crate::raster::wagara::options::parse_wagara_options;
use crate::raster::wagara::render::render_wagara;
use vstd::prelude::*;
#[allow(unused_imports)]
use crate::cli::texts;
#[allow(unused_imports)]
use crate::raster::barcode::{all_printable, code128_columns, is_bar, set_b_payload, MAX_CHARS};
#[allow(unused_imports)]
use crate::raster::bitmap::{blank_row_is_white, blank_rows};
#[allow(unused_imports)]
use crate::raster::markdown::events::{is_empty_page, marks_of, word_texts, words_of, WordText};
#[allow(unused_imports)]
use crate::raster::markdown::lower::block_texts;
#[allow(unused_imports)]
use crate::raster::markdown::model::{
    blocks_of, code_style, image_blocks_are_resolved, images_resolved, BlockText,
};
#[allow(unused_imports)]
use crate::raster::markdown::sources::{blocks_in, is_form, is_word, source_of, Form};
#[allow(unused_imports)]
use crate::raster::qr::{is_code, qr_modules, shows_code, QrError};
#[allow(unused_imports)]
use crate::raster::rich::{line_texts, rows_of as text_rows, LineText};
#[allow(unused_imports)]
use crate::raster::stack::{rows_of, stacked};
#[allow(unused_imports)]
use crate::raster::text::plain_line;
#[allow(unused_imports)]
use crate::raster::typeset::shows;
#[allow(unused_imports)]
use crate::raster::wagara::options::{options_in, WagaraError, WagaraOptions};
#[allow(unused_imports)]
use crate::raster::wagara::render::{fitted, is_band, pattern_named};
#[allow(unused_imports)]
use crate::strings::{quoted, trimmed};

verus! {

/// White margin above and below a horizontal rule, in pixels.
pub const RULE_MARGIN: usize = 12;

/// Thickness of a horizontal rule, in pixels.
pub const RULE_THICKNESS: usize = 2;

/// Length of the dashes of a tear marker and of the gaps between them.
pub const DASH: usize = 8;

/// White margin above and below a fence, in pixels.
pub const FENCE_MARGIN: usize = 24;

/// White margin above and below an image, in pixels.
pub const IMAGE_MARGIN: usize = 8;

/// White rows that a QR code draws itself.
pub const QR_MARGIN: usize = 16;

/// Rows between two margins of white.
pub open spec fn framed(rows: Seq<Seq<u8>>, margin: nat) -> Seq<Seq<u8>> {
    blank_rows(margin) + rows + blank_rows(margin)
}

/// Whether a bitmap is a bar across the paper, perhaps a dashed one.
pub open spec fn is_rule(b: &Bitmap, dashed: bool) -> bool {
    &&& b@.len() == 26
    &&& forall|x: int, y: int|
        0 <= x < WIDTH && 0 <= y < 26 ==> #[trigger] b.black(x, y) == (12 <= y < 14 && (!dashed || x
            % 16 < 8))
}

/// The line that an error message is printed as.
pub open spec fn fault_line(message: Seq<char>) -> Seq<LineText> {
    seq![plain_line(message, code_style(), CODE_INDENT)]
}

/// Whether a bitmap is an error message between the margins of a fence.
pub open spec fn is_fault(b: &Bitmap, message: Seq<char>, faces: &Faces) -> bool {
    exists|text: Bitmap| #[trigger]
        shows(&text, faces, text_rows(faces, fault_line(message))) && b@ == framed(text@, 24)
}

/// Whether a bitmap is a QR code between the margins of a fence.
pub open spec fn is_framed_code(b: &Bitmap, side: int, modules: Seq<bool>) -> bool {
    exists|code: Bitmap| #[trigger] shows_code(&code, side, modules) && b@ == framed(code@, 8)
}

/// Whether a bitmap is the barcode of some data.
pub open spec fn is_barcode(b: &Bitmap, data: Seq<char>) -> bool {
    &&& b@.len() == 80
    &&& forall|x: int, y: int|
        0 <= x < WIDTH && 0 <= y < 80 ==> #[trigger] b.black(x, y) == is_bar(
            code128_columns(set_b_payload(data)),
            x,
        )
}

/// Whether a bitmap is a barcode between the margins of a fence.
pub open spec fn is_framed_barcode(b: &Bitmap, data: Seq<char>) -> bool {
    exists|bars: Bitmap| #[trigger] is_barcode(&bars, data) && b@ == framed(bars@, 24)
}

/// Why a payload has no barcode.
pub open spec fn barcode_fault(data: Seq<char>) -> Option<Seq<char>> {
    if data.len() == 0 {
        Some("barcode data is empty (after trimming whitespace)"@)
    } else if !all_printable(data) {
        Some("barcode data must be printable ASCII"@)
    } else if data.len() > MAX_CHARS {
        Some("barcode data too long to fit the paper"@)
    } else {
        None
    }
}

/// Whether a bitmap is a band of a pattern between the margins of a fence.
pub open spec fn is_framed_band(b: &Bitmap, pattern: Seq<char>, opts: WagaraOptions) -> bool {
    exists|band: Bitmap| #[trigger]
        is_band(pattern_named(pattern)->Some_0, fitted(opts), &band) && b@ == framed(band@, 24)
}

/// What is said of a pattern that is not known.
pub open spec fn unknown_pattern(name: Seq<char>) -> Seq<char> {
    "unknown wagara pattern "@ + quoted(trimmed(name))
        + " (valid: asanoha, ichimatsu, kanoko, kikkou, sayagata, seigaiha, shippou, tatewaku, uroko, yagasuri)"@
}

/// Whether a bitmap is how a block is drawn.
pub open spec fn is_drawn(
    b: &Bitmap,
    block: BlockText,
    images: Seq<ResolvedImage>,
    faces: &Faces,
) -> bool {
    match block {
        BlockText::Lines(lines) => shows(b, faces, text_rows(faces, lines)),
        BlockText::Rule => is_rule(b, false),
        BlockText::Tear => is_rule(b, true),
        BlockText::Qr(data) => match qr_modules(data) {
            Some(code) => is_framed_code(b, code.0 as int, code.1),
            None => is_fault(b, "data too long to fit in a QR code"@, faces),
        },
        BlockText::Barcode(data) => match barcode_fault(data) {
            None => is_framed_barcode(b, data),
            Some(why) => is_fault(b, why, faces),
        },
        BlockText::Wagara(pattern, body) => match options_in(body) {
            Err(why) => is_fault(b, why, faces),
            Ok(opts) => if pattern_named(pattern) is Some {
                is_framed_band(b, pattern, opts)
            } else {
                is_fault(b, unknown_pattern(pattern), faces)
            },
        },
        BlockText::Image(i) => b@ == framed(images[i].bitmap@, 8),
    }
}

/// Whether every bitmap of a list is how the block at its place is drawn.
pub open spec fn all_drawn(
    parts: Seq<Bitmap>,
    blocks: Seq<BlockText>,
    images: Seq<ResolvedImage>,
    faces: &Faces,
) -> bool {
    &&& parts.len() == blocks.len()
    &&& forall|i: int|
        0 <= i < parts.len() ==> is_drawn(&#[trigger] parts[i], blocks[i], images, faces)
}

/// Whether some rows are a document: its blocks one below the other.
pub open spec fn is_document(
    rows: Seq<Seq<u8>>,
    blocks: Seq<BlockText>,
    images: Seq<ResolvedImage>,
    faces: &Faces,
) -> bool {
    exists|parts: Seq<Bitmap>| #[trigger]
        all_drawn(parts, blocks, images, faces) && rows == stacked(rows_of(parts), 0)
}

/// The references that were resolved.
pub open spec fn dests(images: Seq<ResolvedImage>) -> Seq<Seq<char>> {
    Seq::new(images.len(), |i: int| images[i].dest@)
}

/// A bitmap between two margins of white.
fn padded(b: &Bitmap, margin: usize) -> (out: Bitmap)
    ensures
        out@ == framed(b@, margin as nat),
{
    let mut out: Bitmap = Bitmap::new(margin);
    assert(out@ =~= blank_rows(margin as nat));
    append_rows(&mut out, b);
    append_blank(&mut out, margin);
    assert(out@ =~= framed(b@, margin as nat));
    out
}

/// A full-width 2 px black bar with white margins above and below, solid or
/// dashed.
fn rule_bitmap(dashed: bool) -> (b: Bitmap)
    ensures
        is_rule(&b, dashed),
{
    let mut b: Bitmap = Bitmap::new(2 * RULE_MARGIN + RULE_THICKNESS);
    proof {
        assert forall|x: int, y: int| 0 <= x < WIDTH && 0 <= y < 26 implies !(#[trigger] b.black(
            x,
            y,
        )) by {
            blank_row_is_white(x);
        }
    }
    let mut x: usize = 0;
    while x < WIDTH
        invariant
            x <= WIDTH,
            b@.len() == 26,
            forall|u: int, v: int|
                0 <= u < WIDTH && 0 <= v < 26 ==> #[trigger] b.black(u, v) == (u < x && 12 <= v < 14
                    && (!dashed || u % 16 < 8)),
        decreases WIDTH - x,
    {
        if !dashed || x % (2 * DASH) < DASH {
            b.set(x, RULE_MARGIN, true);
            b.set(x, RULE_MARGIN + 1, true);
        }
        x = x + 1;
    }
    b
}

/// An error message between the margins of a fence.
fn fault_bitmap(message: String, faces: &Faces) -> (b: Bitmap)
    ensures
        is_fault(&b, message@, faces),
{
    let mut lines: Vec<RichLine> = Vec::new();
    lines.push(make_line(message, Style::new(FontStyle::Regular, CODE_SIZE), CODE_INDENT));
    assert(line_texts(lines@) =~= fault_line(message@));
    let text: Bitmap = render_rich(&lines, faces);
    assert(shows(&text, faces, text_rows(faces, fault_line(message@))));
    padded(&text, FENCE_MARGIN)
}

/// A QR fence.
fn qr_bitmap(data: &str, faces: &Faces) -> (b: Bitmap)
    ensures
        is_drawn(&b, BlockText::Qr(data@), Seq::empty(), faces),
{
    match render_qr(data, None, faces) {
        Ok(code) => {
            let b: Bitmap = padded(&code, FENCE_MARGIN - QR_MARGIN);
            proof {
                let found = qr_modules(data@)->Some_0;
                let shown = choose|c: Bitmap| #[trigger]
                    shows_code(&c, found.0 as int, found.1) && code@ == c@;
                assert(shows_code(&shown, found.0 as int, found.1));
                assert(is_framed_code(&b, found.0 as int, found.1));
            }
            b
        },
        Err(e) => fault_bitmap(e.message(), faces),
    }
}

/// A barcode fence.
fn barcode_bitmap(data: &str, faces: &Faces) -> (b: Bitmap)
    ensures
        is_drawn(&b, BlockText::Barcode(data@), Seq::empty(), faces),
{
    match render_barcode(data) {
        Ok(bars) => {
            let b: Bitmap = padded(&bars, FENCE_MARGIN);
            assert(is_barcode(&bars, data@));
            b
        },
        Err(BarcodeError::Empty) => fault_bitmap(
            "barcode data is empty (after trimming whitespace)".to_owned(),
            faces,
        ),
        Err(e) => {
            assert(data@.len() > 0);
            fault_bitmap(e.message(), faces)
        },
    }
}

/// A wagara fence.
fn wagara_bitmap(pattern: &str, body: &str, faces: &Faces) -> (b: Bitmap)
    ensures
        is_drawn(&b, BlockText::Wagara(pattern@, body@), Seq::empty(), faces),
{
    match parse_wagara_options(body) {
        Err(e) => fault_bitmap(e.message(), faces),
        Ok(opts) => match render_wagara(pattern, opts) {
            Ok(band) => {
                let b: Bitmap = padded(&band, FENCE_MARGIN);
                assert(is_band(pattern_named(pattern@)->Some_0, fitted(opts), &band));
                b
            },
            Err(e) => fault_bitmap(e.message(), faces),
        },
    }
}

/// Draws one block.
fn draw_block(block: &MdBlock, images: &Vec<ResolvedImage>, faces: &Faces) -> (b: Bitmap)
    requires
        block matches MdBlock::Image(i) ==> i < images@.len(),
    ensures
        is_drawn(&b, block@, images@, faces),
{
    match block {
        MdBlock::Lines(lines) => render_rich(lines, faces),
        MdBlock::Rule => rule_bitmap(false),
        MdBlock::Tear => rule_bitmap(true),
        MdBlock::Qr(data) => qr_bitmap(data.as_str(), faces),
        MdBlock::Barcode(data) => barcode_bitmap(data.as_str(), faces),
        MdBlock::Wagara(pattern, body) => wagara_bitmap(pattern.as_str(), body.as_str(), faces),
        MdBlock::Image(i) => padded(&images[*i].bitmap, IMAGE_MARGIN),
    }
}

/// Render a document from the marks and words of its events.
pub fn render_events(
    marks: &Vec<Mark>,
    words: &Vec<Word>,
    images: &Vec<ResolvedImage>,
    faces: &Faces,
) -> (out: Bitmap)
    requires
        marks@.len() == words@.len(),
    ensures
        is_document(
            out@,
            blocks_of(marks@, word_texts(words@), dests(images@)),
            images@,
            faces,
        ),
{
    let mut names: Vec<String> = Vec::new();
    let mut k: usize = 0;
    while k < images.len()
        invariant
            k <= images@.len(),
            texts(names@) == dests(images@).take(k as int),
        decreases images@.len() - k,
    {
        let ghost before = texts(names@);
        names.push(images[k].dest.as_str().to_owned());
        k = k + 1;
        assert(texts(names@) =~= before.push(images@[k - 1].dest@));
        assert(texts(names@) =~= dests(images@).take(k as int));
    }
    assert(texts(names@) =~= dests(images@));
    let blocks: Vec<MdBlock> = lower(marks, words, &names);
    let ghost model = blocks_of(marks@, word_texts(words@), dests(images@));
    proof {
        image_blocks_are_resolved(marks@, word_texts(words@), dests(images@));
    }
    let mut parts: Vec<Bitmap> = Vec::new();
    let mut i: usize = 0;
    while i < blocks.len()
        invariant
            i <= blocks@.len(),
            model == block_texts(blocks@),
            images_resolved(model, dests(images@)),
            all_drawn(parts@, model.take(i as int), images@, faces),
        decreases blocks@.len() - i,
    {
        assert(model[i as int] == blocks@[i as int]@);
        let ghost before = parts@;
        parts.push(draw_block(&blocks[i], images, faces));
        i = i + 1;
        assert forall|k: int| 0 <= k < parts@.len() implies is_drawn(
            &#[trigger] parts@[k],
            model.take(i as int)[k],
            images@,
            faces,
        ) by {
            if k < i - 1 {
                assert(parts@[k] == before[k]);
                assert(model.take(i - 1)[k] == model.take(i as int)[k]);
            }
        }
    }
    assert(model.take(i as int) =~= model);
    assert(all_drawn(parts@, model, images@, faces));
    stack(parts)
}

/// Render markdown to a 1-bit bitmap, with the images that were resolved.
///
/// Empty (or whitespace-only) markdown yields a zero-height bitmap.
pub fn render_markdown_with(md: &str, images: &Vec<ResolvedImage>, faces: &Faces) -> (out: Bitmap)
    ensures
        is_document(
            out@,
            blocks_of(marks_of(md@), words_of(md@), dests(images@)),
            images@,
            faces,
        ),
        is_empty_page(md@) ==> out@.len() == 0,
        forall|form: Form, w: Seq<char>|
            is_form(form) && is_word(w) && md@ == #[trigger] source_of(form, w) ==> is_document(
                out@,
                blocks_in(form, w, dests(images@)),
                images@,
                faces,
            ),
{
    let marks: Vec<Mark> = parse_marks(md);
    let words: Vec<Word> = parse_words(md);
    proof {
        if marks@.len() == 0 {
            assert(marks@ =~= Seq::empty());
        }
    }
    let out: Bitmap = render_events(&marks, &words, images, faces);
    proof {
        if marks@.len() == 0 {
            nothing_prints_nothing(out@, words_of(md@), images@, faces);
        }
    }
    out
}

/// A document without events has no rows.
pub proof fn nothing_prints_nothing(
    rows: Seq<Seq<u8>>,
    words: Seq<WordText>,
    images: Seq<ResolvedImage>,
    faces: &Faces,
)
    requires
        is_document(rows, blocks_of(Seq::empty(), words, dests(images)), images, faces),
    ensures
        rows.len() == 0,
{
    let blocks = blocks_of(Seq::empty(), words, dests(images));
    assert(blocks =~= Seq::empty());
    let parts = choose|parts: Seq<Bitmap>| #[trigger]
        all_drawn(parts, blocks, images, faces) && rows == stacked(rows_of(parts), 0);
    assert(rows_of(parts) =~= Seq::empty());
}

/// Render markdown to a 1-bit bitmap; every image renders as a placeholder.
pub fn render_markdown(md: &str, faces: &Faces) -> (out: Bitmap)
    ensures
        is_document(
            out@,
            blocks_of(marks_of(md@), words_of(md@), Seq::empty()),
            Seq::empty(),
            faces,
        ),
        is_empty_page(md@) ==> out@.len() == 0,
        forall|form: Form, w: Seq<char>|
            is_form(form) && is_word(w) && md@ == #[trigger] source_of(form, w) ==> is_document(
                out@,
                blocks_in(form, w, Seq::empty()),
                Seq::empty(),
                faces,
            ),
{
    let images: Vec<ResolvedImage> = Vec::new();
    assert(dests(images@) =~= Seq::empty());
    assert(images@ =~= Seq::empty());
    render_markdown_with(md, &images, faces)
}

} // verus!
