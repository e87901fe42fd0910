//! Where typeset text stands on the paper.

use vstd::prelude::*;
#[allow(unused_imports)]
use crate::raster::bitmap::Bitmap;
#[allow(unused_imports)]
use crate::raster::faces::{Faces, Glyph};
#[allow(unused_imports)]
use crate::raster::rich::{advance, largest, width_of, Cell, RowText};
#[allow(unused_imports)]
use crate::raster::typeset::{
    ascent_of, baseline, cell_covers, glyph_covers, inked_by, is_inked, nearest, pen, row_inked_by,
    row_top, sheet_height, shows, strike_covers,
};

verus! {

/// The font sizes of the first `r` rows together, in 64ths of a pixel.
pub open spec fn sizes_above(rows: Seq<RowText>, r: int) -> int
    decreases r,
{
    if r <= 0 {
        0
    } else {
        sizes_above(rows, r - 1) + rows[r - 1].size
    }
}

/// How far the pen has moved before character `q` of a row, in 64ths of a pixel:
/// the indent, and the advance of every character before it.
pub open spec fn pen_distance(faces: &Faces, row: RowText, q: int) -> int
    decreases q,
{
    if q <= 0 {
        64 * row.indent
    } else {
        let before = row.cells[q - 1];
        pen_distance(faces, row, q - 1) + faces.advance(
            before.ch,
            before.style.font,
            before.style.size,
        )
    }
}

/// Whether `a` is the largest ascent among the faces of some characters.
pub open spec fn is_largest_ascent(faces: &Faces, cells: Seq<Cell>, a: int) -> bool {
    &&& forall|k: int|
        0 <= k < cells.len() ==> faces.ascent(
            (#[trigger] cells[k]).style.font,
            cells[k].style.size,
        ) <= a
    &&& exists|k: int|
        0 <= k < cells.len() && faces.ascent(
            (#[trigger] cells[k]).style.font,
            cells[k].style.size,
        ) == a
}

/// Whether pixel `p` is the one nearest to a place in `unit`ths of a pixel.
pub open spec fn is_nearest_pixel(p: int, place: int, unit: int) -> bool {
    2 * unit * p <= 2 * place + unit < 2 * unit * (p + 1)
}

/// Whether character `q` of row `r` stands between the pixel columns `x0` and `x1`
/// on the pixel row `base`: the rows follow each other at 1.3 times their size, and
/// the characters of a row stand as far below its top as the largest ascent says.
pub open spec fn stands_at(
    faces: &Faces,
    rows: Seq<RowText>,
    r: int,
    q: int,
    x0: int,
    x1: int,
    base: int,
) -> bool {
    &&& 0 <= r < rows.len()
    &&& 0 <= q < rows[r].cells.len()
    &&& is_nearest_pixel(x0, pen_distance(faces, rows[r], q), 64)
    &&& is_nearest_pixel(x1, pen_distance(faces, rows[r], q + 1), 64)
    &&& exists|a: int|
        #![trigger is_largest_ascent(faces, rows[r].cells, a)]
        is_largest_ascent(faces, rows[r].cells, a) && is_nearest_pixel(
            base,
            13 * sizes_above(rows, r) + 10 * a,
            640,
        )
}

/// Whether a picture that is drawn from the pen on to the right, and from the
/// baseline up, covers at least half of a pixel.
pub open spec fn picture_covers(glyph: Glyph, x0: int, base: int, x: int, y: int) -> bool {
    let u = x - (x0 + glyph.left);
    let v = y - (base - glyph.bottom - glyph.height);
    &&& 0 <= u < glyph.width
    &&& 0 <= v < glyph.height
    &&& v * glyph.width + u < glyph.coverage@.len()
    &&& glyph.coverage@[v * glyph.width + u] >= 128
}

/// Whether a character in its place blackens a pixel: with its own picture, or
/// with the line through struck text, two pixels thick and 0.35 times the size
/// above the baseline.
pub open spec fn character_covers(
    faces: &Faces,
    cell: Cell,
    x0: int,
    x1: int,
    base: int,
    x: int,
    y: int,
) -> bool {
    ||| faces.face_for(cell.ch, cell.style.font, cell.style.size) matches Some(k)
        && picture_covers(faces.glyphs@[k].glyph, x0, base, x, y)
    ||| {
        &&& cell.style.strike
        &&& x0 <= x < x1
        &&& exists|t: int| #[trigger]
            is_nearest_pixel(t, 35 * cell.style.size, 6400) && base - t <= y < base - t + 2
    }
}

proof fn lemma_top(rows: Seq<RowText>, r: int)
    ensures
        row_top(rows, r) == 13 * sizes_above(rows, r),
    decreases r,
{
    if r > 0 {
        lemma_top(rows, r - 1);
    }
}

proof fn lemma_distance(faces: &Faces, row: RowText, q: int)
    requires
        0 <= q <= row.cells.len(),
    ensures
        pen_distance(faces, row, q) == 64 * row.indent + width_of(faces, row.cells.take(q)),
    decreases q,
{
    if q > 0 {
        lemma_distance(faces, row, q - 1);
        assert(row.cells.take(q).drop_last() =~= row.cells.take(q - 1));
        assert(row.cells.take(q).last() == row.cells[q - 1]);
    } else {
        assert(row.cells.take(0) =~= Seq::empty());
    }
}

proof fn lemma_ascent(faces: &Faces, cells: Seq<Cell>)
    requires
        cells.len() > 0,
    ensures
        is_largest_ascent(faces, cells, ascent_of(faces, cells) as int),
    decreases cells.len(),
{
    let n = cells.len() - 1;
    let a = ascent_of(faces, cells);
    let rest = cells.drop_last();
    if n > 0 {
        lemma_ascent(faces, rest);
        let k = choose|k: int|
            0 <= k < rest.len() && faces.ascent(
                (#[trigger] rest[k]).style.font,
                rest[k].style.size,
            ) == ascent_of(faces, rest);
        assert(cells[k] == rest[k]);
        assert forall|k: int| 0 <= k < cells.len() implies faces.ascent(
            (#[trigger] cells[k]).style.font,
            cells[k].style.size,
        ) <= a by {
            if k < n {
                assert(rest[k] == cells[k]);
            }
        }
    } else {
        assert(rest =~= Seq::empty());
        assert(ascent_of(faces, rest) == 0);
    }
    assert(cells[n] == cells.last());
}

proof fn lemma_one_ascent(faces: &Faces, cells: Seq<Cell>, a: int, b: int)
    requires
        is_largest_ascent(faces, cells, a),
        is_largest_ascent(faces, cells, b),
    ensures
        a == b,
{
    let j = choose|k: int|
        0 <= k < cells.len() && faces.ascent(
            (#[trigger] cells[k]).style.font,
            cells[k].style.size,
        ) == a;
    let k = choose|k: int|
        0 <= k < cells.len() && faces.ascent(
            (#[trigger] cells[k]).style.font,
            cells[k].style.size,
        ) == b;
    assert(cells[j].style == cells[j].style && cells[k].style == cells[k].style);
}

/// The places that a character is drawn at are those that it stands at.
proof fn lemma_place(faces: &Faces, rows: Seq<RowText>, r: int, q: int)
    requires
        0 <= r < rows.len(),
        0 <= q < rows[r].cells.len(),
    ensures
        stands_at(
            faces,
            rows,
            r,
            q,
            pen(faces, rows[r], q),
            pen(faces, rows[r], q + 1),
            baseline(faces, rows, r),
        ),
        forall|x0: int, x1: int, base: int| #[trigger]
            stands_at(faces, rows, r, q, x0, x1, base) ==> x0 == pen(faces, rows[r], q) && x1
                == pen(faces, rows[r], q + 1) && base == baseline(faces, rows, r),
{
    lemma_top(rows, r);
    lemma_distance(faces, rows[r], q);
    lemma_distance(faces, rows[r], q + 1);
    lemma_ascent(faces, rows[r].cells);
    let asc = ascent_of(faces, rows[r].cells) as int;
    assert(is_largest_ascent(faces, rows[r].cells, asc));
    assert forall|x0: int, x1: int, base: int| #[trigger]
        stands_at(faces, rows, r, q, x0, x1, base) implies x0 == pen(faces, rows[r], q) && x1
        == pen(faces, rows[r], q + 1) && base == baseline(faces, rows, r) by {
        let a = choose|a: int|
            #![trigger is_largest_ascent(faces, rows[r].cells, a)]
            is_largest_ascent(faces, rows[r].cells, a) && is_nearest_pixel(
                base,
                13 * sizes_above(rows, r) + 10 * a,
                640,
            );
        lemma_one_ascent(faces, rows[r].cells, a, asc);
    }
}

proof fn lemma_covers(
    faces: &Faces,
    cell: Cell,
    x0: int,
    x1: int,
    base: int,
    x: int,
    y: int,
)
    ensures
        character_covers(faces, cell, x0, x1, base, x, y) == cell_covers(
            faces,
            cell,
            x0,
            x1,
            base,
            x,
            y,
        ),
{
    let t = (35 * cell.style.size + 3200) / 6400;
    let place = 35 * cell.style.size;
    assert(12_800 * t <= 2 * place + 6400 < 12_800 * (t + 1));
    assert(is_nearest_pixel(t, place, 6400)) by (nonlinear_arith)
        requires
            12_800 * t <= 2 * place + 6400 < 12_800 * (t + 1),
    ;
    assert forall|s: int| #[trigger] is_nearest_pixel(s, 35 * cell.style.size, 6400) implies s
        == t by {}
}

/// Text is shown where it stands: a pixel of the sheet is black exactly if a
/// character in its place covers it.
pub proof fn text_is_shown_where_it_stands(
    b: &Bitmap,
    faces: &Faces,
    rows: Seq<RowText>,
    x: int,
    y: int,
)
    requires
        shows(b, faces, rows),
        0 <= x < 384,
        0 <= y < b@.len(),
    ensures
        b.black(x, y) <==> exists|r: int, q: int, x0: int, x1: int, base: int|
            #![trigger stands_at(faces, rows, r, q, x0, x1, base)]
            stands_at(faces, rows, r, q, x0, x1, base) && character_covers(
                faces,
                rows[r].cells[q],
                x0,
                x1,
                base,
                x,
                y,
            ),
{
    reveal(row_inked_by);
    assert(b.black(x, y) == is_inked(faces, rows, x, y));
    if b.black(x, y) {
        let (r, q) = choose|r: int, q: int|
            0 <= r < rows.len() && 0 <= q < rows[r].cells.len() && #[trigger] inked_by(
                faces,
                rows,
                r,
                q,
                x,
                y,
            );
        let x0 = pen(faces, rows[r], q);
        let x1 = pen(faces, rows[r], q + 1);
        let base = baseline(faces, rows, r);
        lemma_place(faces, rows, r, q);
        lemma_covers(faces, rows[r].cells[q], x0, x1, base, x, y);
        assert(stands_at(faces, rows, r, q, x0, x1, base));
    }
    assert forall|r: int, q: int, x0: int, x1: int, base: int|
        #![trigger stands_at(faces, rows, r, q, x0, x1, base)]
        stands_at(faces, rows, r, q, x0, x1, base) && character_covers(
            faces,
            rows[r].cells[q],
            x0,
            x1,
            base,
            x,
            y,
        ) implies b.black(x, y) by {
        lemma_place(faces, rows, r, q);
        lemma_covers(faces, rows[r].cells[q], x0, x1, base, x, y);
        assert(inked_by(faces, rows, r, q, x, y));
    }
}

/// Every character of every row has its place, and only one.
pub proof fn every_character_has_its_place(faces: &Faces, rows: Seq<RowText>, r: int, q: int)
    requires
        0 <= r < rows.len(),
        0 <= q < rows[r].cells.len(),
    ensures
        exists|x0: int, x1: int, base: int| #[trigger]
            stands_at(faces, rows, r, q, x0, x1, base),
{
    lemma_place(faces, rows, r, q);
}

/// A sheet is as tall as its rows: 1.3 times their sizes together, rounded up to
/// whole pixels.
pub proof fn a_sheet_is_as_tall_as_its_rows(b: &Bitmap, faces: &Faces, rows: Seq<RowText>)
    requires
        shows(b, faces, rows),
    ensures
        640 * (b@.len() - 1) < 13 * sizes_above(rows, rows.len() as int) <= 640 * b@.len(),
{
    lemma_top(rows, rows.len() as int);
}

} // verus!
