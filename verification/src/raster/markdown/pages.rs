//! How the blocks of a document stand on the paper.

use vstd::prelude::*;
#[allow(unused_imports)]
use crate::images::ResolvedImage;
#[allow(unused_imports)]
use crate::raster::barcode::is_bar;
#[allow(unused_imports)]
use crate::raster::bitmap::{blank_row_is_white, blank_rows, row_pixel, Bitmap};
#[allow(unused_imports)]
use crate::raster::faces::{Faces, FontStyle};
#[allow(unused_imports)]
use crate::raster::markdown::model::{
    code_style, fence_kind, first_token, BlockText, FenceText,
};
#[allow(unused_imports)]
use crate::raster::markdown::render::{
    all_drawn, fault_line, framed, is_barcode, is_document, is_drawn, is_fault, is_framed_band,
    is_framed_barcode, is_framed_code,
};
#[allow(unused_imports)]
use crate::raster::qr::{qr_modules, shows_code};
#[allow(unused_imports)]
use crate::raster::rich::{rows_of as text_rows, LineText, SpanText, Style};
#[allow(unused_imports)]
use crate::raster::stack::{rows_of, stacked, stacking_keeps_every_row, top_of};
#[allow(unused_imports)]
use crate::raster::typeset::shows;
#[allow(unused_imports)]
use crate::raster::wagara::options::WagaraOptions;
#[allow(unused_imports)]
use crate::raster::wagara::render::{fitted, is_band, pattern_named};
#[allow(unused_imports)]
use crate::strings::{is_blank_text, is_white, skip_white, small_letters};

verus! {

/// Whether `b` shows `inner` from row `margin` on, and nothing in the `margin`
/// rows above it and below it.
pub open spec fn is_between_margins(b: &Bitmap, inner: Seq<Seq<u8>>, margin: int) -> bool {
    &&& b@.len() == inner.len() + 2 * margin
    &&& forall|y: int| 0 <= y < inner.len() ==> #[trigger] b@[margin + y] == inner[y]
    &&& forall|x: int, y: int|
        0 <= x < 384 && (0 <= y < margin || inner.len() + margin <= y < b@.len())
            ==> !#[trigger] b.black(x, y)
}

proof fn lemma_framed(b: &Bitmap, inner: Seq<Seq<u8>>, margin: nat)
    requires
        b@ == framed(inner, margin),
    ensures
        is_between_margins(b, inner, margin as int),
{
    assert forall|x: int, y: int|
        0 <= x < 384 && (0 <= y < margin || inner.len() + margin <= y < b@.len())
            implies !#[trigger] b.black(x, y) by {
        blank_row_is_white(x);
        let at = if y < margin {
            y
        } else {
            y - margin - inner.len()
        };
        assert(b@[y] == blank_rows(margin)[at]);
    }
}

/// A thematic break is a bar of two rows across the paper between twelve white
/// ones; a tear marker is one of dashes, eight pixels black and eight white.
pub proof fn breaks_are_bars(
    b: &Bitmap,
    tear: bool,
    images: Seq<ResolvedImage>,
    faces: &Faces,
    x: int,
    y: int,
)
    requires
        is_drawn(
            b,
            if tear {
                BlockText::Tear
            } else {
                BlockText::Rule
            },
            images,
            faces,
        ),
        0 <= x < 384,
        0 <= y < 26,
    ensures
        b@.len() == 26,
        b.black(x, y) <==> (y == 12 || y == 13) && (tear ==> (x / 8) % 2 == 0),
{
}

/// A QR code in a document stands between 24 white rows: eight of the document's
/// and the sixteen that it has anyway.
pub proof fn codes_stand_between_margins(
    b: &Bitmap,
    data: Seq<char>,
    side: usize,
    modules: Seq<bool>,
    images: Seq<ResolvedImage>,
    faces: &Faces,
)
    requires
        is_drawn(b, BlockText::Qr(data), images, faces),
        qr_modules(data) == Some((side, modules)),
    ensures
        exists|code: Bitmap| #[trigger]
            shows_code(&code, side as int, modules) && is_between_margins(b, code@, 8),
{
    let code = choose|code: Bitmap| #[trigger]
        shows_code(&code, side as int, modules) && b@ == framed(code@, 8);
    lemma_framed(b, code@, 8);
}

/// An image stands between eight white rows, as it is.
pub proof fn images_stand_between_margins(
    b: &Bitmap,
    i: int,
    images: Seq<ResolvedImage>,
    faces: &Faces,
)
    requires
        is_drawn(b, BlockText::Image(i), images, faces),
    ensures
        is_between_margins(b, images[i].bitmap@, 8),
{
    lemma_framed(b, images[i].bitmap@, 8);
}

/// A barcode stands between 24 white rows.
pub proof fn barcodes_stand_between_margins(b: &Bitmap, data: Seq<char>)
    requires
        is_framed_barcode(b, data),
    ensures
        exists|bars: Bitmap| #[trigger]
            is_barcode(&bars, data) && is_between_margins(b, bars@, 24),
{
    let bars = choose|bars: Bitmap| #[trigger] is_barcode(&bars, data) && b@ == framed(bars@, 24);
    lemma_framed(b, bars@, 24);
}

/// A pattern band stands between 24 white rows.
pub proof fn bands_stand_between_margins(b: &Bitmap, pattern: Seq<char>, opts: WagaraOptions)
    requires
        is_framed_band(b, pattern, opts),
    ensures
        exists|band: Bitmap| #[trigger]
            is_band(pattern_named(pattern)->Some_0, fitted(opts), &band) && is_between_margins(
                b,
                band@,
                24,
            ),
{
    let band = choose|band: Bitmap| #[trigger]
        is_band(pattern_named(pattern)->Some_0, fitted(opts), &band) && b@ == framed(band@, 24);
    lemma_framed(b, band@, 24);
}

/// What cannot be drawn says why: its message stands between 24 white rows, as
/// code text with an indent of sixteen pixels.
pub proof fn faults_say_why(b: &Bitmap, message: Seq<char>, faces: &Faces)
    requires
        is_fault(b, message, faces),
    ensures
        ({
            let span = SpanText {
                text: message,
                style: Style { font: FontStyle::Regular, size: 1280, strike: false },
            };
            let line = LineText { spans: seq![span], indent: 16 };
            exists|text: Bitmap| #[trigger]
                shows(&text, faces, text_rows(faces, seq![line])) && is_between_margins(
                    b,
                    text@,
                    24,
                )
        }),
{
    let span = SpanText {
        text: message,
        style: Style { font: FontStyle::Regular, size: 1280, strike: false },
    };
    let line = LineText { spans: seq![span], indent: 16 };
    assert(fault_line(message) =~= seq![line]);
    let text = choose|text: Bitmap| #[trigger]
        shows(&text, faces, text_rows(faces, fault_line(message))) && b@ == framed(text@, 24);
    lemma_framed(b, text@, 24);
    assert(shows(&text, faces, text_rows(faces, seq![line])));
}

/// The rows of the first `i` bitmaps together.
pub open spec fn rows_above(parts: Seq<Bitmap>, i: int) -> int
    decreases i,
{
    if i <= 0 {
        0
    } else {
        rows_above(parts, i - 1) + parts[i - 1]@.len()
    }
}

proof fn lemma_above(parts: Seq<Bitmap>, i: int)
    requires
        0 <= i <= parts.len(),
    ensures
        top_of(rows_of(parts), 0, i) == rows_above(parts, i),
    decreases i,
{
    if i > 0 {
        lemma_above(parts, i - 1);
    }
}

proof fn lemma_empty_stack(parts: Seq<Seq<Seq<u8>>>)
    requires
        forall|i: int| 0 <= i < parts.len() ==> (#[trigger] parts[i]).len() == 0,
    ensures
        stacked(parts, 0).len() == 0,
    decreases parts.len(),
{
    if parts.len() > 1 {
        lemma_empty_stack(parts.drop_last());
    }
}

/// A document is its blocks in order, one right below the other: every one is
/// drawn, and nothing stands between them, above them or below them.
pub proof fn a_document_is_its_blocks_in_order(
    rows: Seq<Seq<u8>>,
    blocks: Seq<BlockText>,
    images: Seq<ResolvedImage>,
    faces: &Faces,
)
    requires
        is_document(rows, blocks, images, faces),
    ensures
        exists|parts: Seq<Bitmap>| #[trigger]
            are_in_order(parts, rows) && parts.len() == blocks.len() && forall|i: int|
                0 <= i < blocks.len() ==> is_drawn(
                    &#[trigger] parts[i],
                    blocks[i],
                    images,
                    faces,
                ),
{
    let parts = choose|parts: Seq<Bitmap>| #[trigger]
        all_drawn(parts, blocks, images, faces) && rows == stacked(rows_of(parts), 0);
    let all = rows_of(parts);
    lemma_above(parts, parts.len() as int);
    if exists|i: int| 0 <= i < all.len() && (#[trigger] all[i]).len() > 0 {
        let i = choose|i: int| 0 <= i < all.len() && (#[trigger] all[i]).len() > 0;
        stacking_keeps_every_row(all, 0, i, 0);
    } else {
        lemma_empty_stack(all);
        lemma_nothing_above(parts, parts.len() as int);
    }
    assert forall|i: int, y: int|
        0 <= i < parts.len() && 0 <= y < parts[i]@.len() implies #[trigger] row_at(
        rows,
        rows_above(parts, i) + y,
    ) == parts[i]@[y] by {
        stacking_keeps_every_row(all, 0, i, y);
        lemma_above(parts, i);
    }
    assert(are_in_order(parts, rows));
}

proof fn lemma_nothing_above(parts: Seq<Bitmap>, i: int)
    requires
        0 <= i <= parts.len(),
        forall|k: int| 0 <= k < parts.len() ==> (#[trigger] rows_of(parts)[k]).len() == 0,
    ensures
        rows_above(parts, i) == 0,
    decreases i,
{
    if i > 0 {
        lemma_nothing_above(parts, i - 1);
        assert(rows_of(parts)[i - 1].len() == 0);
    }
}

/// Row `y` of some rows.
pub open spec fn row_at(rows: Seq<Seq<u8>>, y: int) -> Seq<u8> {
    rows[y]
}

/// Whether some rows are those of the bitmaps, one right below the other.
pub open spec fn are_in_order(parts: Seq<Bitmap>, rows: Seq<Seq<u8>>) -> bool {
    &&& rows.len() == rows_above(parts, parts.len() as int)
    &&& forall|i: int, y: int|
        0 <= i < parts.len() && 0 <= y < parts[i]@.len() ==> #[trigger] row_at(
            rows,
            rows_above(parts, i) + y,
        ) == parts[i]@[y]
}

proof fn lemma_token(word: Seq<char>, rest: Seq<char>)
    requires
        forall|i: int| 0 <= i < word.len() ==> !is_white(#[trigger] word[i]),
        rest.len() == 0 || is_white(rest[0]),
    ensures
        first_token(word + rest) == word,
    decreases word.len(),
{
    if word.len() == 0 {
        assert(word + rest =~= rest);
        assert(word =~= Seq::empty());
    } else {
        let less = word.skip(1);
        assert forall|i: int| 0 <= i < less.len() implies !is_white(#[trigger] less[i]) by {
            assert(less[i] == word[i + 1]);
        }
        lemma_token(less, rest);
        assert((word + rest).skip(1) =~= less + rest);
        assert((word + rest)[0] == word[0]);
        assert(seq![word[0]] + less =~= word);
    }
}

proof fn lemma_white_goes(lead: Seq<char>, rest: Seq<char>)
    requires
        is_blank_text(lead),
        rest.len() == 0 || !is_white(rest[0]),
    ensures
        skip_white(lead + rest) == rest,
    decreases lead.len(),
{
    if lead.len() == 0 {
        assert(lead + rest =~= rest);
    } else {
        let less = lead.skip(1);
        assert forall|i: int| 0 <= i < less.len() implies is_white(#[trigger] less[i]) by {
            assert(less[i] == lead[i + 1]);
        }
        lemma_white_goes(less, rest);
        assert((lead + rest).skip(1) =~= less + rest);
        assert((lead + rest)[0] == lead[0]);
    }
}

/// The first word behind a fence decides what it is, whatever its case: `qr`,
/// `barcode`, or `wagara` with the name of a pattern as the next word. All else is
/// code.
pub proof fn the_first_word_decides_the_fence(
    lead: Seq<char>,
    word: Seq<char>,
    gap: Seq<char>,
    name: Seq<char>,
    rest: Seq<char>,
)
    requires
        is_blank_text(lead),
        word.len() > 0,
        forall|i: int| 0 <= i < word.len() ==> !is_white(#[trigger] word[i]),
        is_blank_text(gap),
        forall|i: int| 0 <= i < name.len() ==> !is_white(#[trigger] name[i]),
        gap.len() == 0 ==> name.len() == 0,
        rest.len() == 0 || is_white(rest[0]),
        name.len() == 0 ==> rest.len() == 0,
    ensures
        ({
            let kind = fence_kind(lead + (word + (gap + (name + rest))));
            let what = small_letters(word);
            &&& what == "qr"@ ==> kind == FenceText::Qr
            &&& what == "barcode"@ ==> kind == FenceText::Barcode
            &&& what == "wagara"@ ==> kind == FenceText::Wagara(name)
            &&& what != "qr"@ && what != "barcode"@ && what != "wagara"@ ==> kind
                == FenceText::Plain
        }),
{
    let tail = name + rest;
    let more = gap + tail;
    let all = word + more;
    assert(all[0] == word[0]);
    lemma_white_goes(lead, all);
    if gap.len() > 0 {
        assert(more[0] == gap[0]);
    }
    lemma_token(word, more);
    assert(all.skip(word.len() as int) =~= more);
    if name.len() > 0 {
        assert(tail[0] == name[0]);
    }
    lemma_white_goes(gap, tail);
    lemma_token(name, rest);
    reveal_strlit("qr");
    reveal_strlit("barcode");
    reveal_strlit("wagara");
    assert("qr"@.len() == 2 && "barcode"@.len() == 7 && "wagara"@.len() == 6);
}

} // verus!
