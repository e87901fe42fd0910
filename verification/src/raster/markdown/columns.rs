//! What a table looks like.

use vstd::prelude::*;
#[allow(unused_imports)]
use crate::raster::markdown::tables::{
    cell_text, column_widths, dash_line, fitted, is_settled, joined, lemma_narrower, lemma_widest,
    line_width, narrower, natural_width, natural_widths, row_line, run_of, shrunk, table_lines,
    total, widest,
};

verus! {

/// Where column `c` begins: behind the columns before it and two spaces for each.
pub open spec fn column_start(widths: Seq<nat>, c: int) -> int
    decreases c,
{
    if c <= 0 {
        0
    } else {
        column_start(widths, c - 1) + widths[c - 1] + 2
    }
}

/// What stands at place `i` of a cell in a column that is `width` wide: the text,
/// with spaces behind it; a text that is too long ends in `…`.
pub open spec fn cell_char(text: Seq<char>, width: int, i: int) -> char {
    if text.len() > width && i == width - 1 {
        '…'
    } else if i < text.len() {
        text[i]
    } else {
        ' '
    }
}

proof fn lemma_joined(parts: Seq<Seq<char>>, widths: Seq<nat>, c: int, i: int)
    requires
        parts.len() == widths.len(),
        forall|k: int| 0 <= k < parts.len() ==> (#[trigger] parts[k]).len() == widths[k],
        0 <= c < parts.len(),
    ensures
        0 <= column_start(widths, c),
        joined(parts).len() + 2 == column_start(widths, parts.len() as int),
        0 <= i < widths[c] ==> column_start(widths, c) + i < joined(parts).len() && joined(
            parts,
        )[column_start(widths, c) + i] == parts[c][i],
        c + 1 < parts.len() ==> column_start(widths, c + 1) <= joined(parts).len() && joined(
            parts,
        )[column_start(widths, c + 1) - 1] == ' ' && joined(parts)[column_start(widths, c + 1) - 2]
            == ' ',
    decreases parts.len(),
{
    let n = parts.len() as int;
    let head = parts.drop_last();
    let rest = widths.drop_last();
    lemma_start_grows(widths, c, n);
    if n == 1 {
        assert(joined(parts) == parts[0]);
        assert(column_start(widths, 0) == 0);
        assert(column_start(widths, 1) == widths[0] + 2);
    } else {
        let k = if c < n - 1 {
            c
        } else {
            n - 2
        };
        lemma_joined(head, rest, k, i);
        lemma_start_same(widths, rest, n - 1);
        lemma_start_same(widths, rest, k);
        if k + 1 < n {
            lemma_start_same(widths, rest, k + 1);
        }
        assert(joined(parts) == joined(head) + seq![' ', ' '] + parts.last());
        assert(column_start(widths, n) == column_start(widths, n - 1) + widths[n - 1] + 2);
        assert(joined(head).len() + 2 == column_start(widths, n - 1));
        assert(parts.last().len() == widths[n - 1]);
    }
}

proof fn lemma_start_same(widths: Seq<nat>, rest: Seq<nat>, c: int)
    requires
        rest == widths.drop_last(),
        widths.len() > 0,
        c < widths.len(),
    ensures
        column_start(rest, c) == column_start(widths, c),
    decreases c,
{
    if c > 0 {
        lemma_start_same(widths, rest, c - 1);
    }
}

proof fn lemma_start_grows(widths: Seq<nat>, c: int, d: int)
    requires
        0 <= c <= d <= widths.len(),
    ensures
        0 <= column_start(widths, c) <= column_start(widths, d),
    decreases d,
{
    if c < d {
        lemma_start_grows(widths, c, d - 1);
    } else if c > 0 {
        lemma_start_grows(widths, c - 1, d - 1);
    }
}

/// The line of row `r`: the header comes first, then the dashes.
pub open spec fn line_of(r: int) -> int {
    if r == 0 {
        0
    } else {
        r + 1
    }
}

proof fn lemma_widths(rows: Seq<Seq<Seq<char>>>, c: int)
    requires
        0 <= c < rows[0].len(),
    ensures
        column_widths(rows).len() == rows[0].len(),
        column_widths(rows)[c] >= 1,
{
    let widths = natural_widths(rows);
    lemma_natural(rows, c, rows.len() as int);
    lemma_shrunk(widths);
}

/// The columns line up: each row has its cells where the columns begin, every one
/// as wide as its column, with two spaces between them, in the order of the
/// columns. The header is on top, a row of dashes under it.
pub proof fn columns_line_up(rows: Seq<Seq<Seq<char>>>, r: int, c: int, i: int)
    requires
        0 <= r < rows.len(),
        0 <= c < rows[0].len(),
    ensures
        ({
            let widths = column_widths(rows);
            let lines = table_lines(rows);
            let line = lines[line_of(r)];
            let dashes = lines[1];
            let text = if c < rows[r].len() {
                rows[r][c]
            } else {
                Seq::empty()
            };
            let start = column_start(widths, c);
            &&& lines.len() == rows.len() + 1
            &&& widths.len() == rows[0].len()
            &&& line.len() + 2 == column_start(widths, widths.len() as int)
            &&& dashes.len() == line.len()
            &&& 0 <= i < widths[c] ==> line[start + i] == cell_char(text, widths[c] as int, i)
            &&& 0 <= i < widths[c] ==> dashes[start + i] == '-'
            &&& c + 1 < widths.len() ==> line[column_start(widths, c + 1) - 2] == ' '
                && line[column_start(widths, c + 1) - 1] == ' '
        }),
{
    let widths = column_widths(rows);
    let parts = Seq::new(widths.len(), |k: int| fitted(cell_text(rows[r], k), widths[k]));
    let bars = Seq::new(widths.len(), |k: int| run_of('-', widths[k]));
    lemma_widths(rows, c);
    assert forall|k: int| 0 <= k < parts.len() implies (#[trigger] parts[k]).len()
        == widths[k] by {
        lemma_widths(rows, k);
    }
    lemma_joined(parts, widths, c, i);
    lemma_joined(bars, widths, c, i);
}

proof fn lemma_natural(rows: Seq<Seq<Seq<char>>>, c: int, n: int)
    requires
        0 <= n <= rows.len(),
    ensures
        natural_width(rows, c, n) >= 1,
        forall|r: int|
            0 <= r < n && c < (#[trigger] rows[r]).len() ==> rows[r][c].len() <= natural_width(
                rows,
                c,
                n,
            ),
        natural_width(rows, c, n) == 1 || exists|r: int|
            0 <= r < n && c < (#[trigger] rows[r]).len() && rows[r][c].len() == natural_width(
                rows,
                c,
                n,
            ),
    decreases n,
{
    if n > 0 {
        lemma_natural(rows, c, n - 1);
        let here = cell_text(rows[n - 1], c).len();
        let before = natural_width(rows, c, n - 1);
        if here > before {
            assert(c < rows[n - 1].len() && rows[n - 1][c].len() == natural_width(rows, c, n));
        } else if before != 1 {
            let r = choose|r: int|
                0 <= r < n - 1 && c < (#[trigger] rows[r]).len() && rows[r][c].len() == before;
            assert(0 <= r < n && c < rows[r].len() && rows[r][c].len() == natural_width(rows, c, n));
        }
    }
}

/// Whether `w` is the width of the widest cell of a column, or one.
pub open spec fn is_content_width(rows: Seq<Seq<Seq<char>>>, c: int, w: int) -> bool {
    &&& w >= 1
    &&& forall|r: int|
        0 <= r < rows.len() && c < (#[trigger] rows[r]).len() ==> rows[r][c].len() <= w
    &&& w == 1 || exists|r: int|
        0 <= r < rows.len() && c < (#[trigger] rows[r]).len() && rows[r][c].len() == w
}

/// What narrowing leaves of some widths.
spec fn is_narrowed(from: Seq<nat>, to: Seq<nat>) -> bool {
    &&& to.len() == from.len()
    &&& forall|k: int| 0 <= k < to.len() ==> #[trigger] to[k] <= from[k]
    &&& forall|k: int| 0 <= k < to.len() && #[trigger] to[k] < from[k] ==> to[k] >= 3
    &&& forall|j: int, k: int|
        0 <= j < to.len() && 0 <= k < to.len() && #[trigger] to[k] < from[k] ==> #[trigger] to[j]
            <= to[k] + 1
    &&& line_width(to) <= 32 || forall|k: int| 0 <= k < to.len() ==> #[trigger] to[k] <= 3
    &&& to != from ==> line_width(to) >= 32
}

proof fn lemma_shrunk(widths: Seq<nat>)
    ensures
        is_narrowed(widths, shrunk(widths)),
    decreases total(widths),
{
    let to = shrunk(widths);
    if is_settled(widths) {
        if widths.len() > 0 {
            lemma_widest(widths);
        }
    } else {
        lemma_narrower(widths);
        lemma_widest(widths);
        let next = narrower(widths);
        let at = widest(widths);
        lemma_shrunk(next);
        assert(widths.len() > 0);
        assert(line_width(next) == line_width(widths) - 1);
        assert forall|k: int| 0 <= k < to.len() && #[trigger] to[k] < widths[k] implies to[k]
            >= 3 by {
            assert(next[at] >= 3);
        }
        assert forall|j: int, k: int|
            0 <= j < to.len() && 0 <= k < to.len() && #[trigger] to[k] < widths[k]
            implies #[trigger] to[j] <= to[k] + 1 by {
            if to[k] >= next[k] {
                assert(k == at);
                assert(to[j] <= next[j] <= widths[at]);
            }
        }
        assert forall|k: int| 0 <= k < to.len() implies #[trigger] to[k] <= widths[k] by {
            assert(to[k] <= next[k]);
        }
    }
}

/// The columns are as wide as their widest cells where a line of 32 characters
/// takes that; where it does not, the widest give way first, down to three
/// characters, and no further than they have to.
pub proof fn columns_share_the_line(rows: Seq<Seq<Seq<char>>>, content: Seq<nat>)
    requires
        rows.len() > 0,
        rows[0].len() > 0,
        content.len() == rows[0].len(),
        forall|c: int|
            0 <= c < content.len() ==> is_content_width(rows, c, #[trigger] content[c] as int),
    ensures
        ({
            let widths = column_widths(rows);
            let room = column_start(content, content.len() as int) - 2;
            let line = column_start(widths, widths.len() as int) - 2;
            &&& widths.len() == content.len()
            &&& room <= 32 ==> widths == content
            &&& forall|c: int|
                0 <= c < widths.len() ==> #[trigger] widths[c] <= content[c] && (widths[c]
                    == content[c] || widths[c] >= 3)
            // A column that gives way is no more than one character narrower than
            // any other.
            &&& forall|j: int, k: int|
                0 <= j < widths.len() && 0 <= k < widths.len() && #[trigger] widths[k] < content[k]
                    ==> #[trigger] widths[j] <= widths[k] + 1
            &&& line <= 32 || forall|c: int| 0 <= c < widths.len() ==> #[trigger] widths[c] <= 3
            &&& widths != content ==> line >= 32
        }),
{
    let natural = natural_widths(rows);
    assert forall|c: int| 0 <= c < content.len() implies #[trigger] content[c] == natural[c] by {
        lemma_natural(rows, c, rows.len() as int);
        let w = natural[c] as int;
        assert(is_content_width(rows, c, content[c] as int));
        assert(is_content_width(rows, c, w));
        if w != 1 {
            let r = choose|r: int|
                0 <= r < rows.len() && c < (#[trigger] rows[r]).len() && rows[r][c].len() == w;
            assert(rows[r][c].len() <= content[c]);
        }
        if content[c] != 1 {
            let r = choose|r: int|
                0 <= r < rows.len() && c < (#[trigger] rows[r]).len() && rows[r][c].len()
                    == content[c];
            assert(rows[r][c].len() <= w);
        }
    }
    assert(content =~= natural);
    lemma_shrunk(natural);
    let widths = column_widths(rows);
    lemma_line_width(natural, natural.len() as int);
    lemma_line_width(widths, widths.len() as int);
    assert(natural.take(natural.len() as int) =~= natural);
    assert(widths.take(widths.len() as int) =~= widths);
}

proof fn lemma_line_width(widths: Seq<nat>, n: int)
    requires
        0 <= n <= widths.len(),
    ensures
        column_start(widths, n) == total(widths.take(n)) + 2 * n,
    decreases n,
{
    if n > 0 {
        lemma_line_width(widths, n - 1);
        assert(widths.take(n).drop_last() =~= widths.take(n - 1));
    }
}

} // verus!
