//! What fitting a page onto the paper keeps of it.

use vstd::prelude::*;
#[allow(unused_imports)]
use crate::raster::bitmap::{blank_row_is_white, blank_rows, row_pixel};
#[allow(unused_imports)]
use crate::raster::dither::Dither;
#[allow(unused_imports)]
use crate::raster::gray::cropped;
#[allow(unused_imports)]
use crate::raster::stack::stacked;
#[allow(unused_imports)]
use crate::raster::urf::{
    are_printed, cut_to_ink, fitted, fitted_pages, has_ink, ink_box, ink_box_is_unique,
    ink_in_column, ink_in_row, is_ink, is_ink_box, is_print_of, is_receipt, prints_as, trimmed,
    PageModel,
};

verus! {

/// Whether a page is a rectangle of the width that it declares, within the size
/// that is decoded.
pub open spec fn is_sheet(page: PageModel) -> bool {
    &&& page.width <= 30_000
    &&& page.rows.len() <= 30_000
    &&& forall|y: int|
        0 <= y < page.rows.len() ==> (#[trigger] page.rows[y]).len() == page.width
}

/// Whether the pixel in column `x` of row `y` is dark enough to be content.
pub open spec fn is_content(rows: Seq<Seq<u8>>, x: int, y: int) -> bool {
    0 <= y < rows.len() && 0 <= x < rows[y].len() && rows[y][x] <= 240
}

/// Whether there is content in a column.
pub open spec fn content_in_column(rows: Seq<Seq<u8>>, x: int) -> bool {
    exists|y: int| is_content(rows, x, y)
}

/// Whether there is content in a row.
pub open spec fn content_in_row(rows: Seq<Seq<u8>>, y: int) -> bool {
    exists|x: int| is_content(rows, x, y)
}

/// Whether the content of a page begins in column `x0` and row `y0` and ends
/// before column `x1` and row `y1`.
pub open spec fn content_spans(
    rows: Seq<Seq<u8>>,
    x0: int,
    y0: int,
    x1: int,
    y1: int,
) -> bool {
    &&& forall|x: int, y: int| #[trigger] is_content(rows, x, y) ==> x0 <= x < x1 && y0 <= y < y1
    &&& content_in_column(rows, x0)
    &&& content_in_row(rows, y0)
    &&& content_in_column(rows, x1 - 1)
    &&& content_in_row(rows, y1 - 1)
}

/// Whether `part` shows the pixels of a page from column `dx` and row `dy` on, as
/// they are, with all of the page's content among them.
pub open spec fn holds_the_content(
    rows: Seq<Seq<u8>>,
    part: Seq<Seq<u8>>,
    dx: int,
    dy: int,
) -> bool {
    &&& forall|x: int, y: int|
        0 <= y < part.len() && 0 <= x < part[y].len() ==> 0 <= y + dy < rows.len() && 0 <= x + dx
            < rows[y + dy].len() && #[trigger] part[y][x] == rows[y + dy][x + dx]
    &&& forall|x: int, y: int| #[trigger]
        is_content(rows, x, y) ==> is_content(part, x - dx, y - dy) && part[y - dy][x - dx]
            == rows[y][x]
    &&& forall|x: int, y: int| #[trigger]
        is_content(part, x, y) ==> is_content(rows, x + dx, y + dy)
}

proof fn lemma_box(page: PageModel, x0: int, y0: int, x1: int, y1: int)
    requires
        is_sheet(page),
        content_spans(page.rows, x0, y0, x1, y1),
    ensures
        has_ink(page.rows),
        ink_box(page.rows) == (x0, y0, x1, y1),
        0 <= x0 < x1 <= page.width,
        0 <= y0 < y1 <= page.rows.len(),
        page.rows[0].len() == page.width,
{
    let rows = page.rows;
    assert forall|x: int, y: int| is_ink(rows, x, y) == #[trigger] is_content(rows, x, y) by {}
    let last_x = x1 - 1;
    let last_y = y1 - 1;
    let a = choose|y: int| is_content(rows, x0, y);
    let b = choose|x: int| is_content(rows, x, y0);
    let c = choose|y: int| is_content(rows, last_x, y);
    let d = choose|x: int| is_content(rows, x, last_y);
    assert(is_ink(rows, x0, a) && is_ink(rows, b, y0) && is_ink(rows, x1 - 1, c) && is_ink(
        rows,
        d,
        y1 - 1,
    )) by {
        assert(is_content(rows, x0, a));
        assert(is_content(rows, b, y0));
        assert(is_content(rows, x1 - 1, c));
        assert(is_content(rows, d, y1 - 1));
    }
    assert(ink_in_column(rows, x0) && ink_in_column(rows, x1 - 1));
    assert(ink_in_row(rows, y0) && ink_in_row(rows, y1 - 1));
    assert forall|x: int, y: int| #[trigger] is_ink(rows, x, y) implies x0 <= x < x1 && y0 <= y
        < y1 by {
        assert(is_content(rows, x, y));
    }
    let found = (x0, y0, x1, y1);
    assert(is_ink_box(rows, found));
    ink_box_is_unique(rows, found, ink_box(rows));
}

proof fn lemma_part(
    page: PageModel,
    left: int,
    top: int,
    right: int,
    bottom: int,
    x0: int,
    y0: int,
    x1: int,
    y1: int,
)
    requires
        is_sheet(page),
        content_spans(page.rows, x0, y0, x1, y1),
        0 <= left <= x0,
        0 <= top <= y0,
        x1 <= right <= page.width,
        y1 <= bottom <= page.rows.len(),
    ensures
        ({
            let part = cropped(page.rows, left, top, right, bottom);
            &&& holds_the_content(page.rows, part, left, top)
            &&& part.len() == bottom - top
            &&& forall|y: int| 0 <= y < part.len() ==> (#[trigger] part[y]).len() == right - left
        }),
{
    let rows = page.rows;
    let part = cropped(rows, left, top, right, bottom);
    lemma_box(page, x0, y0, x1, y1);
    assert forall|y: int| 0 <= y < part.len() implies (#[trigger] part[y]).len() == right
        - left by {
        assert(rows[top + y].len() == page.width);
    }
    assert forall|x: int, y: int| 0 <= y < part.len() && 0 <= x < part[y].len() implies 0 <= y
        + top < rows.len() && 0 <= x + left < rows[y + top].len() && #[trigger] part[y][x]
        == rows[y + top][x + left] by {
        assert(rows[top + y].len() == page.width);
    }
    assert forall|x: int, y: int| #[trigger] is_content(rows, x, y) implies is_content(
        part,
        x - left,
        y - top,
    ) && part[y - top][x - left] == rows[y][x] by {
        assert(part[y - top].len() == right - left);
        assert(part[y - top][x - left] == rows[y][x]);
    }
    assert forall|x: int, y: int| #[trigger] is_content(part, x, y) implies is_content(
        rows,
        x + left,
        y + top,
    ) by {
        assert(part[y][x] == rows[y + top][x + left]);
    }
}

/// No content is lost in fitting, and none is added: all of it is in the part of
/// the page that is printed, where it was among the rest, in its own shade.
pub proof fn no_content_is_lost(page: PageModel, x0: int, y0: int, x1: int, y1: int)
    requires
        is_sheet(page),
        content_spans(page.rows, x0, y0, x1, y1),
    ensures
        fitted(page) is Some,
        exists|dx: int, dy: int| #[trigger]
            holds_the_content(page.rows, fitted(page)->Some_0, dx, dy),
{
    lemma_box(page, x0, y0, x1, y1);
    if 0 < page.dpi && page.width * 254 < 810 * page.dpi {
        a_receipt_keeps_its_layout(page, x0, y0, x1, y1);
        assert(holds_the_content(page.rows, fitted(page)->Some_0, 0, y0));
    } else {
        a_full_sheet_is_cropped_to_its_content(page, x0, y0, x1, y1);
    }
}

/// A page without content is not printed.
pub proof fn a_page_without_content_is_left_out(page: PageModel)
    requires
        forall|x: int, y: int| !#[trigger] is_content(page.rows, x, y),
    ensures
        fitted(page) is None,
{
    assert forall|x: int, y: int| !is_ink(page.rows, x, y) by {
        assert(!is_content(page.rows, x, y));
    }
}

proof fn lemma_receipt(page: PageModel)
    requires
        page.width <= 30_000,
        page.dpi > 0,
    ensures
        is_receipt(page.width, page.dpi) == (page.width * 254 < 810 * page.dpi),
{
    let n = page.width * 254;
    let d = page.dpi * 10;
    let mm = n / d;
    assert(0 <= mm <= n && (mm <= 80 <==> n < 81 * d)) by (nonlinear_arith)
        requires
            n >= 0,
            d >= 1,
            mm == n / d,
    ;
    assert(mm % 0x1_0000_0000 == mm);
}

/// A page that is less than 81 mm wide keeps its full width: only the rows above
/// its first and below its last content go.
pub proof fn a_receipt_keeps_its_layout(page: PageModel, x0: int, y0: int, x1: int, y1: int)
    requires
        is_sheet(page),
        0 < page.dpi,
        page.width * 254 < 810 * page.dpi,
        content_spans(page.rows, x0, y0, x1, y1),
    ensures
        fitted(page) is Some,
        fitted(page)->Some_0 == page.rows.subrange(y0, y1),
        holds_the_content(page.rows, fitted(page)->Some_0, 0, y0),
{
    lemma_box(page, x0, y0, x1, y1);
    lemma_receipt(page);
    lemma_part(page, 0, y0, page.width as int, y1, x0, y0, x1, y1);
    let part = trimmed(page.rows, page.width as int);
    assert forall|y: int| 0 <= y < part.len() implies #[trigger] part[y] == page.rows[y0 + y] by {
        assert(page.rows[y0 + y].len() == page.width);
        assert(part[y] =~= page.rows[y0 + y]);
    }
    assert(part =~= page.rows.subrange(y0, y1));
}

/// The smaller of two numbers.
pub open spec fn lesser(a: int, b: int) -> int {
    if a < b {
        a
    } else {
        b
    }
}

/// Any other page is cropped to its content and a border on each side of a
/// fiftieth of the content's width, or of one pixel if that is less; where the
/// page itself ends sooner, so does the border.
pub proof fn a_full_sheet_is_cropped_to_its_content(
    page: PageModel,
    x0: int,
    y0: int,
    x1: int,
    y1: int,
)
    requires
        is_sheet(page),
        page.dpi == 0 || page.width * 254 >= 810 * page.dpi,
        content_spans(page.rows, x0, y0, x1, y1),
    ensures
        fitted(page) is Some,
        ({
            let part = fitted(page)->Some_0;
            let border = if x1 - x0 < 100 {
                1
            } else {
                (x1 - x0) / 50
            };
            let left = lesser(x0, border);
            let above = lesser(y0, border);
            let right = lesser(page.width - x1, border);
            let below = lesser(page.rows.len() - y1, border);
            &&& holds_the_content(page.rows, part, x0 - left, y0 - above)
            &&& part.len() == above + (y1 - y0) + below
            &&& forall|y: int|
                0 <= y < part.len() ==> (#[trigger] part[y]).len() == left + (x1 - x0) + right
        }),
{
    lemma_box(page, x0, y0, x1, y1);
    if page.dpi > 0 {
        lemma_receipt(page);
    }
    let border = if x1 - x0 < 100 {
        1
    } else {
        (x1 - x0) / 50
    };
    let left = lesser(x0, border);
    let above = lesser(y0, border);
    let right = lesser(page.width - x1, border);
    let below = lesser(page.rows.len() - y1, border);
    lemma_part(
        page,
        x0 - left,
        y0 - above,
        x1 + right,
        y1 + below,
        x0,
        y0,
        x1,
        y1,
    );
    assert(cut_to_ink(page.rows, page.width as int) == cropped(
        page.rows,
        x0 - left,
        y0 - above,
        x1 + right,
        y1 + below,
    ));
}

/// The pages that are printed are all with content, in their order.
pub proof fn pages_are_printed_in_order(pages: Seq<PageModel>, page: PageModel)
    ensures
        fitted_pages(pages.push(page)) == match fitted(page) {
            Some(part) => fitted_pages(pages).push(part),
            None => fitted_pages(pages),
        },
        fitted_pages(Seq::<PageModel>::empty()).len() == 0,
{
    assert(pages.push(page).drop_last() =~= pages);
}

/// The pages of a print stand one below the other, each scaled to the width of the
/// paper, with 24 white rows between two of them and none above or below.
pub proof fn pages_stand_apart(
    parts: Seq<Seq<Seq<u8>>>,
    dither: Dither,
    out: Seq<Seq<u8>>,
)
    requires
        parts.len() > 0,
        is_print_of(parts, dither, out),
    ensures
        exists|printed: Seq<Seq<Seq<u8>>>| #[trigger]
            are_stacked_apart(printed, out) && printed.len() == parts.len() && forall|i: int|
                0 <= i < parts.len() ==> prints_as(parts[i], dither, #[trigger] printed[i]),
{
    let printed = choose|printed: Seq<Seq<Seq<u8>>>| #[trigger]
        are_printed(parts, dither, printed) && out == stacked(printed, 24);
    lemma_stacked_apart(printed);
}

/// Where part `i` of a stack begins, with 24 rows between parts.
pub open spec fn start_of(parts: Seq<Seq<Seq<u8>>>, i: int) -> int
    decreases i,
{
    if i <= 0 {
        0
    } else {
        start_of(parts, i - 1) + parts[i - 1].len() + 24
    }
}

/// Whether some rows are those of the parts, with 24 white rows between two.
pub open spec fn are_stacked_apart(parts: Seq<Seq<Seq<u8>>>, out: Seq<Seq<u8>>) -> bool {
    &&& out.len() == start_of(parts, parts.len() as int) - 24
    &&& forall|i: int| #![trigger parts[i]]
        0 <= i < parts.len() ==> out.subrange(
            start_of(parts, i),
            start_of(parts, i) + parts[i].len(),
        ) == parts[i]
    &&& forall|i: int, y: int, x: int|
        0 <= i < parts.len() - 1 && 0 <= y < 24 && 0 <= x < 384 ==> !#[trigger] gap_pixel(
            parts,
            out,
            i,
            y,
            x,
        )
}

/// Pixel `x` of row `y` of the gap below part `i`.
pub open spec fn gap_pixel(
    parts: Seq<Seq<Seq<u8>>>,
    out: Seq<Seq<u8>>,
    i: int,
    y: int,
    x: int,
) -> bool {
    row_pixel(out[start_of(parts, i) + parts[i].len() + y], x)
}

proof fn lemma_start_of(parts: Seq<Seq<Seq<u8>>>, less: Seq<Seq<Seq<u8>>>, i: int)
    requires
        less == parts.drop_last(),
        parts.len() > 0,
        0 <= i < parts.len(),
    ensures
        start_of(less, i) == start_of(parts, i),
        0 <= start_of(parts, i),
        i + 1 < parts.len() ==> start_of(parts, i) + parts[i].len() + 24 <= start_of(
            parts,
            parts.len() - 1,
        ),
    decreases i,
{
    if i > 0 {
        lemma_start_of(parts, less, i - 1);
    }
    lemma_start_grows(parts, i, parts.len() - 1);
}

proof fn lemma_start_grows(parts: Seq<Seq<Seq<u8>>>, i: int, j: int)
    requires
        0 <= i <= j <= parts.len(),
    ensures
        i < j ==> start_of(parts, i) + parts[i].len() + 24 <= start_of(parts, j),
    decreases j - i,
{
    if i + 1 < j {
        lemma_start_grows(parts, i, j - 1);
    }
}

proof fn lemma_longer_stack(parts: Seq<Seq<Seq<u8>>>, upper: Seq<Seq<u8>>, i: int)
    requires
        parts.len() > 1,
        are_stacked_apart(parts.drop_last(), upper),
        0 <= i < parts.len(),
    ensures
        ({
            let out = upper + blank_rows(24) + parts.last();
            &&& upper.len() + 24 == start_of(parts, parts.len() - 1)
            &&& 0 <= start_of(parts, i)
            &&& start_of(parts, i) + parts[i].len() <= out.len()
            &&& out.subrange(start_of(parts, i), start_of(parts, i) + parts[i].len()) == parts[i]
        }),
{
    let n = parts.len() - 1;
    let less = parts.drop_last();
    let out = upper + blank_rows(24) + parts.last();
    lemma_start_of(parts, less, n);
    lemma_start_of(parts, less, i);
    if i < n {
        assert(less[i] == parts[i]);
        assert(out.subrange(start_of(parts, i), start_of(parts, i) + parts[i].len())
            =~= upper.subrange(start_of(less, i), start_of(less, i) + less[i].len()));
    } else {
        assert(out.subrange(start_of(parts, n), start_of(parts, n) + parts[n].len()) =~= parts[n]);
    }
}

proof fn lemma_longer_gap(
    parts: Seq<Seq<Seq<u8>>>,
    upper: Seq<Seq<u8>>,
    i: int,
    y: int,
    x: int,
)
    requires
        parts.len() > 1,
        are_stacked_apart(parts.drop_last(), upper),
        0 <= i < parts.len() - 1,
        0 <= y < 24,
        0 <= x < 384,
    ensures
        !gap_pixel(parts, upper + blank_rows(24) + parts.last(), i, y, x),
{
    let n = parts.len() - 1;
    let less = parts.drop_last();
    let out = upper + blank_rows(24) + parts.last();
    lemma_longer_stack(parts, upper, i);
    lemma_start_of(parts, less, i);
    let at = start_of(parts, i) + parts[i].len() + y;
    if i < n - 1 {
        assert(!gap_pixel(less, upper, i, y, x));
        lemma_start_grows(parts, i, n - 1);
        lemma_start_of(parts, less, n - 1);
        lemma_start_grows(parts, n - 1, n);
        assert(at < upper.len());
        assert(out[at] == upper[at]);
        assert(less[i] == parts[i]);
    } else {
        blank_row_is_white(x);
        assert(start_of(parts, n) == start_of(parts, n - 1) + parts[n - 1].len() + 24);
        assert(out[at] == blank_rows(24)[y]);
    }
}

proof fn lemma_stacked_apart(parts: Seq<Seq<Seq<u8>>>)
    requires
        parts.len() > 0,
    ensures
        are_stacked_apart(parts, stacked(parts, 24)),
    decreases parts.len(),
{
    let out = stacked(parts, 24);
    if parts.len() == 1 {
        reveal_with_fuel(start_of, 2);
        assert(out.subrange(0, parts[0].len() as int) =~= parts[0]);
    } else {
        let less = parts.drop_last();
        lemma_stacked_apart(less);
        let upper = stacked(less, 24);
        assert(out == upper + blank_rows(24) + parts.last());
        lemma_longer_stack(parts, upper, 0);
        assert forall|i: int| #![trigger parts[i]] 0 <= i < parts.len() implies out.subrange(
            start_of(parts, i),
            start_of(parts, i) + parts[i].len(),
        ) == parts[i] by {
            lemma_longer_stack(parts, upper, i);
        }
        assert forall|i: int, y: int, x: int|
            0 <= i < parts.len() - 1 && 0 <= y < 24 && 0 <= x < 384 implies !#[trigger] gap_pixel(
            parts,
            out,
            i,
            y,
            x,
        ) by {
            lemma_longer_gap(parts, upper, i, y, x);
        }
    }
}

} // verus!
