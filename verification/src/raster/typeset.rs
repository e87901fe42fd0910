//! Drawing rows of styled text: glyphs on a shared baseline, strike lines, and
//! the sheet they stand on.
//!
//! The rows follow each other without gaps, each 1.3 times as tall as its
//! largest font size; the sheet is rounded up to whole pixels once, at its end.
//! A pixel is black where a glyph covers half of it or more.

use crate::raster::bitmap::Bitmap;
use crate::raster::faces::{Faces, Glyph};
use crate::raster::rich::{break_lines, Cell, RichLine, Row};
use crate::raster::stack::append_blank;
use vstd::prelude::*;
#[allow(unused_imports)]
use crate::raster::bitmap::{blank_row_is_white, blank_rows, WIDTH};
#[allow(unused_imports)]
use crate::raster::rich::{advance, larger, line_texts, row_texts, rows_of, width_of, RowText};

verus! {

/// A pixel is black from this coverage on.
pub const INK_LEVEL: u8 = 128;

/// Rows of the line through struck text.
pub const STRIKE_THICKNESS: i128 = 2;

/// The top of row `r`, in 640ths of a pixel.
pub open spec fn row_top(rows: Seq<RowText>, r: int) -> int
    decreases r,
{
    if r <= 0 {
        0
    } else {
        row_top(rows, r - 1) + 13 * rows[r - 1].size
    }
}

/// The height of a sheet in pixels.
pub open spec fn sheet_height(rows: Seq<RowText>) -> int {
    (row_top(rows, rows.len() as int) + 639) / 640
}

/// The largest ascent of some characters, in 64ths of a pixel.
pub open spec fn ascent_of(faces: &Faces, cells: Seq<Cell>) -> u32
    decreases cells.len(),
{
    if cells.len() == 0 {
        0
    } else {
        larger(
            ascent_of(faces, cells.drop_last()),
            faces.ascent(cells.last().style.font, cells.last().style.size),
        )
    }
}

/// The pixel row that the characters of row `r` stand on.
pub open spec fn baseline(faces: &Faces, rows: Seq<RowText>, r: int) -> int {
    (row_top(rows, r) + 10 * ascent_of(faces, rows[r].cells) + 320) / 640
}

/// The pixel nearest to a place in 64ths.
pub open spec fn nearest(place: int) -> int {
    (place + 32) / 64
}

/// The pixel column where the pen stands before character `q` of a row.
pub open spec fn pen(faces: &Faces, row: RowText, q: int) -> int {
    nearest(64 * row.indent + width_of(faces, row.cells.take(q)))
}

/// Whether a glyph whose pen stands at `x0` on the baseline `base` blackens a
/// pixel.
pub open spec fn glyph_covers(glyph: Glyph, x0: int, base: int, x: int, y: int) -> bool {
    let u = x - x0 - glyph.left;
    let v = y - (base - glyph.bottom - glyph.height);
    &&& 0 <= u < glyph.width
    &&& 0 <= v < glyph.height
    &&& v * glyph.width + u < glyph.coverage@.len()
    &&& glyph.coverage@[v * glyph.width + u] >= INK_LEVEL
}

/// The top row of the line through text of some size: 0.35 times the size above
/// the baseline.
pub open spec fn strike_top(size: u32, base: int) -> int {
    base - (35 * size + 3200) / 6400
}

/// Whether the line through a character that goes from column `left` to column
/// `right` blackens a pixel.
pub open spec fn strike_covers(
    size: u32,
    left: int,
    right: int,
    base: int,
    x: int,
    y: int,
) -> bool {
    left <= x < right && strike_top(size, base) <= y < strike_top(size, base) + STRIKE_THICKNESS
}

/// Whether a character between two places of the pen blackens a pixel.
pub open spec fn cell_covers(
    faces: &Faces,
    cell: Cell,
    left: int,
    right: int,
    base: int,
    x: int,
    y: int,
) -> bool {
    ||| faces.face_for(cell.ch, cell.style.font, cell.style.size) matches Some(i) && glyph_covers(
        faces.glyphs@[i].glyph,
        left,
        base,
        x,
        y,
    )
    ||| cell.style.strike && strike_covers(cell.style.size, left, right, base, x, y)
}

/// Whether character `q` of a row with this baseline blackens a pixel.
#[verifier::opaque]
pub open spec fn row_inked_by(
    faces: &Faces,
    row: RowText,
    base: int,
    q: int,
    x: int,
    y: int,
) -> bool {
    cell_covers(faces, row.cells[q], pen(faces, row, q), pen(faces, row, q + 1), base, x, y)
}

/// Whether character `q` of row `r` blackens a pixel.
pub open spec fn inked_by(
    faces: &Faces,
    rows: Seq<RowText>,
    r: int,
    q: int,
    x: int,
    y: int,
) -> bool {
    row_inked_by(faces, rows[r], baseline(faces, rows, r), q, x, y)
}

/// Whether a pixel is black on the sheet.
pub open spec fn is_inked(faces: &Faces, rows: Seq<RowText>, x: int, y: int) -> bool {
    exists|r: int, q: int|
        0 <= r < rows.len() && 0 <= q < rows[r].cells.len() && #[trigger] inked_by(
            faces,
            rows,
            r,
            q,
            x,
            y,
        )
}

/// Whether a bitmap shows the rows of a sheet.
pub open spec fn shows(b: &Bitmap, faces: &Faces, rows: Seq<RowText>) -> bool {
    &&& b@.len() == sheet_height(rows)
    &&& forall|x: int, y: int|
        0 <= x < WIDTH && 0 <= y < b@.len() ==> #[trigger] b.black(x, y) == is_inked(
            faces,
            rows,
            x,
            y,
        )
}

/// Blackens a pixel, where it is on the sheet.
fn ink(out: &mut Bitmap, x: i128, y: i128)
    ensures
        final(out)@.len() == old(out)@.len(),
        forall|a: int, b: int|
            0 <= a < WIDTH && 0 <= b < old(out)@.len() ==> #[trigger] final(out).black(a, b) == (
            old(out).black(a, b) || (a == x && b == y)),
{
    if x >= 0 && x < 384 && y >= 0 && y < out.height() as i128 {
        out.set(x as usize, y as usize, true);
    }
}

/// Draws a glyph whose pen stands at `x0` on the baseline `base`.
fn paint_glyph(out: &mut Bitmap, glyph: &Glyph, x0: i128, base: i128)
    requires
        0 <= x0 <= 0x1_0000_0000_0000_0000_0000_0000_0000,
        0 <= base <= 0x1_0000_0000_0000_0000_0000_0000_0000,
    ensures
        final(out)@.len() == old(out)@.len(),
        forall|a: int, b: int|
            0 <= a < WIDTH && 0 <= b < old(out)@.len() ==> #[trigger] final(out).black(a, b) == (
            old(out).black(a, b) || glyph_covers(*glyph, x0 as int, base as int, a, b)),
{
    let left: i128 = x0 + glyph.left as i128;
    let top: i128 = base - glyph.bottom as i128 - glyph.height as i128;
    let ghost before = *out;
    let mut v: u32 = 0;
    while v < glyph.height
        invariant
            v <= glyph.height,
            left == x0 + glyph.left,
            top == base - glyph.bottom - glyph.height,
            0 <= x0 <= 0x1_0000_0000_0000_0000_0000_0000_0000,
            0 <= base <= 0x1_0000_0000_0000_0000_0000_0000_0000,
            out@.len() == before@.len(),
            forall|a: int, b: int|
                0 <= a < WIDTH && 0 <= b < before@.len() ==> #[trigger] out.black(a, b) == (
                before.black(a, b) || (b - top < v && glyph_covers(
                    *glyph,
                    x0 as int,
                    base as int,
                    a,
                    b,
                ))),
        decreases glyph.height - v,
    {
        let mut u: u32 = 0;
        while u < glyph.width
            invariant
                v < glyph.height,
                u <= glyph.width,
                left == x0 + glyph.left,
                top == base - glyph.bottom - glyph.height,
                0 <= x0 <= 0x1_0000_0000_0000_0000_0000_0000_0000,
                0 <= base <= 0x1_0000_0000_0000_0000_0000_0000_0000,
                out@.len() == before@.len(),
                forall|a: int, b: int|
                    0 <= a < WIDTH && 0 <= b < before@.len() ==> #[trigger] out.black(a, b) == (
                    before.black(a, b) || ((b - top < v || (b - top == v && a - left < u))
                        && glyph_covers(*glyph, x0 as int, base as int, a, b))),
            decreases glyph.width - u,
        {
            proof {
                assert(0 <= v * glyph.width + u <= 0xFFFF_FFFF * 0xFFFF_FFFF + 0xFFFF_FFFF)
                    by (nonlinear_arith)
                    requires
                        0 <= v <= 0xFFFF_FFFF,
                        0 <= glyph.width <= 0xFFFF_FFFF,
                        0 <= u <= 0xFFFF_FFFF,
                ;
                assert(0 <= v * glyph.width <= 0xFFFF_FFFF * 0xFFFF_FFFF) by (nonlinear_arith)
                    requires
                        0 <= v <= 0xFFFF_FFFF,
                        0 <= glyph.width <= 0xFFFF_FFFF,
                ;
            }
            let k: u64 = v as u64 * glyph.width as u64 + u as u64;
            let ghost here = glyph_covers(
                *glyph,
                x0 as int,
                base as int,
                left + u,
                top + v,
            );
            if k < glyph.coverage.len() as u64 && glyph.coverage[k as usize] >= INK_LEVEL {
                assert(here);
                ink(out, left + u as i128, top + v as i128);
            } else {
                assert(!here);
            }
            u = u + 1;
        }
        v = v + 1;
    }
}

/// Draws the line through a character.
fn paint_strike(out: &mut Bitmap, size: u32, left: i128, right: i128, base: i128)
    requires
        0 <= left <= right <= 0x1_0000_0000_0000_0000_0000_0000_0000,
        0 <= base <= 0x1_0000_0000_0000_0000_0000_0000_0000,
    ensures
        final(out)@.len() == old(out)@.len(),
        forall|a: int, b: int|
            0 <= a < WIDTH && 0 <= b < old(out)@.len() ==> #[trigger] final(out).black(a, b) == (
            old(out).black(a, b) || strike_covers(
                size,
                left as int,
                right as int,
                base as int,
                a,
                b,
            )),
{
    let top: i128 = base - (35 * size as i128 + 3200) / 6400;
    let ghost before = *out;
    let mut x: i128 = left;
    while x < right && x < 384
        invariant
            0 <= left <= x <= right || (x == left && right < left),
            left <= x,
            x <= 384 || x == left,
            right <= 0x1_0000_0000_0000_0000_0000_0000_0000,
            0 <= base <= 0x1_0000_0000_0000_0000_0000_0000_0000,
            top == strike_top(size, base as int),
            -0x1_0000_0000 <= top - base <= 0,
            out@.len() == before@.len(),
            forall|a: int, b: int|
                0 <= a < WIDTH && 0 <= b < before@.len() ==> #[trigger] out.black(a, b) == (
                before.black(a, b) || (a < x && strike_covers(
                    size,
                    left as int,
                    right as int,
                    base as int,
                    a,
                    b,
                ))),
        decreases 384 - x,
    {
        ink(out, x, top);
        ink(out, x, top + 1);
        x = x + 1;
    }
}

/// The largest ascent of some characters.
fn find_ascent(cells: &Vec<Cell>, faces: &Faces) -> (ascent: u32)
    ensures
        ascent == ascent_of(faces, cells@),
{
    let mut ascent: u32 = 0;
    let mut i: usize = 0;
    assert(cells@.take(0) =~= Seq::empty());
    while i < cells.len()
        invariant
            i <= cells@.len(),
            ascent == ascent_of(faces, cells@.take(i as int)),
        decreases cells@.len() - i,
    {
        let a: u32 = faces.ascent_of(cells[i].style.font, cells[i].style.size);
        if ascent < a {
            ascent = a;
        }
        assert(cells@.take(i + 1).drop_last() =~= cells@.take(i as int));
        i = i + 1;
    }
    assert(cells@.take(i as int) =~= cells@);
    ascent
}

/// Whether one of the first `n` characters of a row blackens a pixel.
spec fn row_inked(faces: &Faces, row: RowText, base: int, n: int, x: int, y: int) -> bool {
    exists|q: int| 0 <= q < n && #[trigger] row_inked_by(faces, row, base, q, x, y)
}

/// Draws one character.
fn paint_cell(out: &mut Bitmap, cell: Cell, faces: &Faces, left: i128, right: i128, base: i128)
    requires
        0 <= left <= right <= 0x1_0000_0000_0000_0000_0000_0000_0000,
        0 <= base <= 0x1_0000_0000_0000_0000_0000_0000_0000,
    ensures
        final(out)@.len() == old(out)@.len(),
        forall|a: int, b: int|
            0 <= a < WIDTH && 0 <= b < old(out)@.len() ==> #[trigger] final(out).black(a, b) == (
            old(out).black(a, b) || cell_covers(
                faces,
                cell,
                left as int,
                right as int,
                base as int,
                a,
                b,
            )),
{
    match faces.glyph_index(cell.ch, cell.style.font, cell.style.size) {
        Some(i) => {
            paint_glyph(out, &faces.glyphs[i].glyph, left, base);
        },
        None => {},
    }
    if cell.style.strike {
        paint_strike(out, cell.style.size, left, right, base);
    }
}

/// Draws a row on a baseline.
fn paint_row(out: &mut Bitmap, row: &Row, faces: &Faces, base: i128)
    requires
        0 <= base <= 0x1_0000_0000_0000_0000_0000_0000_0000,
    ensures
        final(out)@.len() == old(out)@.len(),
        forall|a: int, b: int|
            0 <= a < WIDTH && 0 <= b < old(out)@.len() ==> #[trigger] final(out).black(a, b) == (
            old(out).black(a, b) || row_inked(
                faces,
                row@,
                base as int,
                row.cells@.len() as int,
                a,
                b,
            )),
{
    let ghost before = *out;
    let mut width: u128 = 0;
    let mut q: usize = 0;
    assert(row.cells@.take(0) =~= Seq::empty());
    while q < row.cells.len()
        invariant
            q <= row.cells@.len(),
            0 <= base <= 0x1_0000_0000_0000_0000_0000_0000_0000,
            width == width_of(faces, row.cells@.take(q as int)),
            width <= q * 0xFFFF_FFFF,
            out@.len() == before@.len(),
            forall|a: int, b: int|
                0 <= a < WIDTH && 0 <= b < before@.len() ==> #[trigger] out.black(a, b) == (
                before.black(a, b) || row_inked(faces, row@, base as int, q as int, a, b)),
        decreases row.cells@.len() - q,
    {
        let cell: Cell = row.cells[q];
        let step: u32 = faces.advance_of(cell.ch, cell.style.font, cell.style.size);
        assert(row.cells@.take(q + 1).drop_last() =~= row.cells@.take(q as int));
        assert(q * 0xFFFF_FFFF <= 0xFFFF_FFFF_FFFF_FFFF * 0xFFFF_FFFF) by (nonlinear_arith)
            requires
                0 <= q <= 0xFFFF_FFFF_FFFF_FFFF,
        ;
        let indent: u128 = 64 * row.indent as u128;
        let left: u128 = (indent + width + 32) / 64;
        let right: u128 = (indent + width + step as u128 + 32) / 64;
        let ghost drawn = *out;
        paint_cell(out, cell, faces, left as i128, right as i128, base);
        proof {
            reveal(row_inked_by);
            assert forall|a: int, b: int|
                0 <= a < WIDTH && 0 <= b < before@.len() implies #[trigger] out.black(a, b) == (
            before.black(a, b) || row_inked(faces, row@, base as int, q + 1, a, b)) by {
                assert(out.black(a, b) == (drawn.black(a, b) || row_inked_by(
                    faces,
                    row@,
                    base as int,
                    q as int,
                    a,
                    b,
                )));
                lemma_row_inked(faces, row@, base as int, q as int, a, b);
            }
            assert((q + 1) * 0xFFFF_FFFF == q * 0xFFFF_FFFF + 0xFFFF_FFFF) by (nonlinear_arith);
        }
        width = width + step as u128;
        q = q + 1;
    }
}

proof fn lemma_row_inked(faces: &Faces, row: RowText, base: int, q: int, x: int, y: int)
    requires
        0 <= q,
    ensures
        row_inked(faces, row, base, q + 1, x, y) == (row_inked(faces, row, base, q, x, y)
            || row_inked_by(faces, row, base, q, x, y)),
{
    if row_inked(faces, row, base, q + 1, x, y) {
        let k = choose|k: int| 0 <= k < q + 1 && #[trigger] row_inked_by(faces, row, base, k, x, y);
        assert(k == q || row_inked(faces, row, base, q, x, y));
    }
    if row_inked(faces, row, base, q, x, y) {
        let k = choose|k: int| 0 <= k < q && #[trigger] row_inked_by(faces, row, base, k, x, y);
        assert(row_inked_by(faces, row, base, k, x, y));
    }
}

/// Whether a pixel is black on the sheet by one of the first `n` rows.
spec fn inked_above(faces: &Faces, rows: Seq<RowText>, n: int, x: int, y: int) -> bool {
    exists|r: int, q: int|
        0 <= r < n && 0 <= q < rows[r].cells.len() && #[trigger] inked_by(faces, rows, r, q, x, y)
}

proof fn lemma_inked_above(faces: &Faces, rows: Seq<RowText>, n: int, x: int, y: int)
    requires
        0 <= n < rows.len(),
    ensures
        inked_above(faces, rows, n + 1, x, y) == (inked_above(faces, rows, n, x, y) || row_inked(
            faces,
            rows[n],
            baseline(faces, rows, n),
            rows[n].cells.len() as int,
            x,
            y,
        )),
{
    let base = baseline(faces, rows, n);
    let count = rows[n].cells.len() as int;
    if inked_above(faces, rows, n + 1, x, y) {
        let (r, q) = choose|r: int, q: int|
            0 <= r < n + 1 && 0 <= q < rows[r].cells.len() && #[trigger] inked_by(
                faces,
                rows,
                r,
                q,
                x,
                y,
            );
        if r == n {
            assert(row_inked_by(faces, rows[n], base, q, x, y));
        } else {
            assert(inked_by(faces, rows, r, q, x, y));
        }
    }
    if inked_above(faces, rows, n, x, y) {
        let (r, q) = choose|r: int, q: int|
            0 <= r < n && 0 <= q < rows[r].cells.len() && #[trigger] inked_by(
                faces,
                rows,
                r,
                q,
                x,
                y,
            );
        assert(inked_by(faces, rows, r, q, x, y));
    }
    if row_inked(faces, rows[n], base, count, x, y) {
        let q = choose|q: int|
            0 <= q < count && #[trigger] row_inked_by(faces, rows[n], base, q, x, y);
        assert(inked_by(faces, rows, n, q, x, y));
    }
}

/// A white sheet as tall as the rows.
fn blank_sheet(rows: &Vec<Row>) -> (out: Bitmap)
    ensures
        out@ == blank_rows(sheet_height(row_texts(rows@)) as nat),
{
    let mut out: Bitmap = Bitmap::new(0);
    let mut top: u128 = 0;
    let mut r: usize = 0;
    assert(out@ =~= blank_rows(0));
    while r < rows.len()
        invariant
            r <= rows@.len(),
            top == row_top(row_texts(rows@), r as int),
            top <= r * 0xD_FFFF_FFFF,
            out@ == blank_rows(((top + 639) / 640) as nat),
        decreases rows@.len() - r,
    {
        proof {
            assert(r * 0xD_FFFF_FFFF <= 0xFFFF_FFFF_FFFF_FFFF * 0xD_FFFF_FFFF)
                by (nonlinear_arith)
                requires
                    0 <= r <= 0xFFFF_FFFF_FFFF_FFFF,
            ;
            assert((r + 1) * 0xD_FFFF_FFFF == r * 0xD_FFFF_FFFF + 0xD_FFFF_FFFF)
                by (nonlinear_arith);
        }
        let below: u128 = top + 13 * rows[r].size as u128;
        append_blank(&mut out, ((below + 639) / 640 - (top + 639) / 640) as usize);
        assert(out@ =~= blank_rows(((below + 639) / 640) as nat));
        top = below;
        r = r + 1;
    }
    out
}

proof fn lemma_top_is_positive(rows: Seq<RowText>, r: int)
    ensures
        row_top(rows, r) >= 0,
    decreases r,
{
    if r > 0 {
        lemma_top_is_positive(rows, r - 1);
    }
}

/// Draws rows of text on a sheet of their own.
pub fn draw_rows(rows: &Vec<Row>, faces: &Faces) -> (out: Bitmap)
    ensures
        shows(&out, faces, row_texts(rows@)),
{
    let mut out: Bitmap = blank_sheet(rows);
    let ghost model = row_texts(rows@);
    proof {
        lemma_top_is_positive(model, model.len() as int);
        assert forall|x: int, y: int| 0 <= x < WIDTH && 0 <= y < out@.len() implies !(
        #[trigger] out.black(x, y)) by {
            blank_row_is_white(x);
        }
    }
    let mut top: u128 = 0;
    let mut r: usize = 0;
    while r < rows.len()
        invariant
            r <= rows@.len(),
            model == row_texts(rows@),
            top == row_top(model, r as int),
            top <= r * 0xD_FFFF_FFFF,
            out@.len() == sheet_height(model),
            forall|x: int, y: int|
                0 <= x < WIDTH && 0 <= y < out@.len() ==> #[trigger] out.black(x, y)
                    == inked_above(faces, model, r as int, x, y),
        decreases rows@.len() - r,
    {
        proof {
            assert(r * 0xD_FFFF_FFFF <= 0xFFFF_FFFF_FFFF_FFFF * 0xD_FFFF_FFFF)
                by (nonlinear_arith)
                requires
                    0 <= r <= 0xFFFF_FFFF_FFFF_FFFF,
            ;
            assert((r + 1) * 0xD_FFFF_FFFF == r * 0xD_FFFF_FFFF + 0xD_FFFF_FFFF)
                by (nonlinear_arith);
        }
        let ascent: u32 = find_ascent(&rows[r].cells, faces);
        let base: u128 = (top + 10 * ascent as u128 + 320) / 640;
        assert(base == baseline(faces, model, r as int));
        let ghost before = out;
        paint_row(&mut out, &rows[r], faces, base as i128);
        proof {
            assert forall|x: int, y: int|
                0 <= x < WIDTH && 0 <= y < out@.len() implies #[trigger] out.black(x, y)
                == inked_above(faces, model, r + 1, x, y) by {
                assert(before.black(x, y) == inked_above(faces, model, r as int, x, y));
                lemma_inked_above(faces, model, r as int, x, y);
            }
        }
        top = top + 13 * rows[r].size as u128;
        r = r + 1;
    }
    out
}

/// Typesets lines of styled text. No line gives a bitmap of height zero.
pub fn render_rich(lines: &Vec<RichLine>, faces: &Faces) -> (out: Bitmap)
    ensures
        shows(&out, faces, rows_of(faces, line_texts(lines@))),
{
    let rows: Vec<Row> = break_lines(lines, faces);
    draw_rows(&rows, faces)
}

} // verus!
