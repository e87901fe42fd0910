//! Tables as monospace text: column widths, truncation, and the lines.
//!
//! A column starts as wide as its widest cell. While the line is wider than the
//! paper takes, the widest column gives up one character, down to three. Cells
//! are left-justified and joined by two spaces; one that is longer than its
//! column is cut and ends in `…`. The columns are those of the header: missing
//! cells are empty, cells past the header are dropped.

use vstd::prelude::*;
#[allow(unused_imports)]
use crate::strings::char_lists;

verus! {

/// Characters on a line of table text.
pub const BUDGET: u128 = 32;

/// Characters below which a column does not shrink.
pub const MIN_COLUMN: usize = 3;

/// The text of a cell, empty where the row is too short.
pub open spec fn cell_text(row: Seq<Seq<char>>, c: int) -> Seq<char> {
    if c < row.len() {
        row[c]
    } else {
        Seq::empty()
    }
}

/// The widest cell of a column in the first `n` rows, one at least.
pub open spec fn natural_width(rows: Seq<Seq<Seq<char>>>, c: int, n: int) -> nat
    decreases n,
{
    if n <= 0 {
        1
    } else {
        let before = natural_width(rows, c, n - 1);
        let here = cell_text(rows[n - 1], c).len();
        if here > before {
            here
        } else {
            before
        }
    }
}

/// The widths that the columns of a table start with.
pub open spec fn natural_widths(rows: Seq<Seq<Seq<char>>>) -> Seq<nat> {
    Seq::new(rows[0].len(), |c: int| natural_width(rows, c, rows.len() as int))
}

/// The characters of all columns together.
pub open spec fn total(widths: Seq<nat>) -> nat
    decreases widths.len(),
{
    if widths.len() == 0 {
        0
    } else {
        total(widths.drop_last()) + widths.last()
    }
}

/// The width of a line, gutters included.
pub open spec fn line_width(widths: Seq<nat>) -> int {
    if widths.len() == 0 {
        0
    } else {
        total(widths) + 2 * (widths.len() - 1)
    }
}

/// The first of the widest columns.
pub open spec fn widest(widths: Seq<nat>) -> int
    decreases widths.len(),
{
    if widths.len() <= 1 {
        0
    } else {
        let k = widest(widths.drop_last());
        if widths.last() > widths[k] {
            widths.len() - 1
        } else {
            k
        }
    }
}

pub proof fn lemma_widest(widths: Seq<nat>)
    requires
        widths.len() > 0,
    ensures
        0 <= widest(widths) < widths.len(),
        forall|i: int| 0 <= i < widths.len() ==> #[trigger] widths[i] <= widths[widest(widths)],
    decreases widths.len(),
{
    if widths.len() > 1 {
        lemma_widest(widths.drop_last());
        let k = widest(widths.drop_last());
        assert forall|i: int| 0 <= i < widths.len() implies #[trigger] widths[i] <= widths[widest(
            widths,
        )] by {
            if i < widths.len() - 1 {
                assert(widths.drop_last()[i] <= widths.drop_last()[k]);
            }
        }
    }
}

proof fn lemma_total_update(widths: Seq<nat>, k: int, w: nat)
    requires
        0 <= k < widths.len(),
    ensures
        total(widths.update(k, w)) == total(widths) - widths[k] + w,
    decreases widths.len(),
{
    let changed = widths.update(k, w);
    if k == widths.len() - 1 {
        assert(changed.drop_last() =~= widths.drop_last());
    } else {
        assert(changed.drop_last() =~= widths.drop_last().update(k, w));
        lemma_total_update(widths.drop_last(), k, w);
    }
}

/// Whether no column gives up another character.
pub open spec fn is_settled(widths: Seq<nat>) -> bool {
    widths.len() == 0 || line_width(widths) <= BUDGET || widths[widest(widths)] <= MIN_COLUMN
}

/// The widths after the widest column has given up a character.
pub open spec fn narrower(widths: Seq<nat>) -> Seq<nat> {
    let k = widest(widths);
    widths.update(k, (widths[k] - 1) as nat)
}

/// The widths once no column gives up another character.
pub open spec fn shrunk(widths: Seq<nat>) -> Seq<nat>
    decreases total(widths),
{
    if is_settled(widths) {
        widths
    } else {
        proof {
            lemma_narrower(widths);
        }
        shrunk(narrower(widths))
    }
}

pub proof fn lemma_narrower(widths: Seq<nat>)
    requires
        !is_settled(widths),
    ensures
        total(narrower(widths)) == total(widths) - 1,
        narrower(widths).len() == widths.len(),
{
    let k = widest(widths);
    lemma_widest(widths);
    lemma_total_update(widths, k, (widths[k] - 1) as nat);
}

/// Some characters of one kind.
pub open spec fn run_of(c: char, n: nat) -> Seq<char> {
    Seq::new(n, |i: int| c)
}

/// A cell as wide as its column.
pub open spec fn fitted(text: Seq<char>, width: nat) -> Seq<char> {
    if text.len() <= width {
        text + run_of(' ', (width - text.len()) as nat)
    } else {
        text.take(width - 1).push('…')
    }
}

/// Texts joined by the gutter.
pub open spec fn joined(parts: Seq<Seq<char>>) -> Seq<char>
    decreases parts.len(),
{
    if parts.len() == 0 {
        Seq::empty()
    } else if parts.len() == 1 {
        parts[0]
    } else {
        joined(parts.drop_last()) + seq![' ', ' '] + parts.last()
    }
}

/// A row as wide as the columns.
pub open spec fn row_line(row: Seq<Seq<char>>, widths: Seq<nat>) -> Seq<char> {
    joined(Seq::new(widths.len(), |c: int| fitted(cell_text(row, c), widths[c])))
}

/// The row of dashes below the header.
pub open spec fn dash_line(widths: Seq<nat>) -> Seq<char> {
    joined(Seq::new(widths.len(), |c: int| run_of('-', widths[c])))
}

/// The widths of the columns of a table.
pub open spec fn column_widths(rows: Seq<Seq<Seq<char>>>) -> Seq<nat> {
    shrunk(natural_widths(rows))
}

/// The lines of a table: the header, the dashes, the other rows. A table without
/// a column has none.
pub open spec fn table_lines(rows: Seq<Seq<Seq<char>>>) -> Seq<Seq<char>> {
    if rows.len() == 0 || rows[0].len() == 0 {
        Seq::empty()
    } else {
        let widths = column_widths(rows);
        seq![row_line(rows[0], widths), dash_line(widths)] + Seq::new(
            (rows.len() - 1) as nat,
            |r: int| row_line(rows[r + 1], widths),
        )
    }
}

/// The widths of columns as plain numbers.
pub open spec fn counts(widths: Seq<usize>) -> Seq<nat> {
    Seq::new(widths.len(), |i: int| widths[i] as nat)
}

/// The cells of a table as characters.
pub open spec fn cells_text(rows: Seq<Vec<Vec<char>>>) -> Seq<Seq<Seq<char>>> {
    Seq::new(rows.len(), |r: int| char_lists(rows[r]@))
}

/// The widest cell of a column.
fn measure(rows: &Vec<Vec<Vec<char>>>, c: usize) -> (width: usize)
    ensures
        width == natural_width(cells_text(rows@), c as int, rows@.len() as int),
        width >= 1,
{
    let mut width: usize = 1;
    let mut r: usize = 0;
    while r < rows.len()
        invariant
            r <= rows@.len(),
            width >= 1,
            width == natural_width(cells_text(rows@), c as int, r as int),
        decreases rows@.len() - r,
    {
        assert(cells_text(rows@)[r as int] == char_lists(rows@[r as int]@));
        if c < rows[r].len() && rows[r][c].len() > width {
            width = rows[r][c].len();
        }
        r = r + 1;
    }
    width
}

/// The width of a line, gutters included.
fn line_room(widths: &Vec<usize>) -> (w: u128)
    ensures
        w == line_width(counts(widths@)),
{
    let mut sum: u128 = 0;
    let mut i: usize = 0;
    assert(counts(widths@).take(0) =~= Seq::empty());
    while i < widths.len()
        invariant
            i <= widths@.len(),
            sum == total(counts(widths@).take(i as int)),
            sum <= i * 0xFFFF_FFFF_FFFF_FFFF,
        decreases widths@.len() - i,
    {
        proof {
            assert(counts(widths@).take(i + 1).drop_last() =~= counts(widths@).take(i as int));
            assert((i + 1) * 0xFFFF_FFFF_FFFF_FFFF == i * 0xFFFF_FFFF_FFFF_FFFF
                + 0xFFFF_FFFF_FFFF_FFFF) by (nonlinear_arith);
            assert((i + 1) * 0xFFFF_FFFF_FFFF_FFFF <= 0xFFFF_FFFF_FFFF_FFFF
                * 0xFFFF_FFFF_FFFF_FFFF) by (nonlinear_arith)
                requires
                    0 <= i < 0xFFFF_FFFF_FFFF_FFFF,
            ;
        }
        sum = sum + widths[i] as u128;
        i = i + 1;
    }
    assert(counts(widths@).take(i as int) =~= counts(widths@));
    if widths.len() == 0 {
        return 0;
    }
    proof {
        assert(i * 0xFFFF_FFFF_FFFF_FFFF <= 0xFFFF_FFFF_FFFF_FFFF * 0xFFFF_FFFF_FFFF_FFFF)
            by (nonlinear_arith)
            requires
                0 <= i <= 0xFFFF_FFFF_FFFF_FFFF,
        ;
    }
    sum + 2 * (widths.len() as u128 - 1)
}

/// The first of the widest columns.
fn find_widest(widths: &Vec<usize>) -> (k: usize)
    requires
        widths@.len() > 0,
    ensures
        k == widest(counts(widths@)),
        k < widths@.len(),
{
    let mut k: usize = 0;
    let mut i: usize = 1;
    while i < widths.len()
        invariant
            1 <= i <= widths@.len(),
            k < i,
            k == widest(counts(widths@).take(i as int)),
        decreases widths@.len() - i,
    {
        assert(counts(widths@).take(i + 1).drop_last() =~= counts(widths@).take(i as int));
        if widths[i] > widths[k] {
            k = i;
        }
        i = i + 1;
    }
    assert(counts(widths@).take(i as int) =~= counts(widths@));
    k
}

/// Narrows the columns until no one gives up another character.
fn shrink(widths: &mut Vec<usize>)
    ensures
        counts(final(widths)@) == shrunk(counts(old(widths)@)),
        final(widths)@.len() == old(widths)@.len(),
{
    loop
        invariant
            shrunk(counts(widths@)) == shrunk(counts(old(widths)@)),
            widths@.len() == old(widths)@.len(),
        ensures
            is_settled(counts(widths@)),
            shrunk(counts(widths@)) == shrunk(counts(old(widths)@)),
            widths@.len() == old(widths)@.len(),
        decreases total(counts(widths@)),
    {
        if widths.len() == 0 {
            break;
        }
        let k: usize = find_widest(widths);
        let w: usize = widths[k];
        if line_room(widths) <= BUDGET || w <= MIN_COLUMN {
            break;
        }
        let ghost before = counts(widths@);
        proof {
            lemma_narrower(before);
        }
        widths.set(k, w - 1);
        assert(counts(widths@) =~= narrower(before));
    }
}

/// Appends some characters of one kind.
fn push_run(out: &mut Vec<char>, c: char, n: usize)
    ensures
        final(out)@ == old(out)@ + run_of(c, n as nat),
{
    let mut i: usize = 0;
    assert(out@ =~= out@ + run_of(c, 0));
    while i < n
        invariant
            i <= n,
            out@ == old(out)@ + run_of(c, i as nat),
        decreases n - i,
    {
        out.push(c);
        i = i + 1;
        assert(out@ =~= old(out)@ + run_of(c, i as nat));
    }
}

/// Appends the first characters of a text.
fn push_start(out: &mut Vec<char>, text: &Vec<char>, n: usize)
    requires
        n <= text@.len(),
    ensures
        final(out)@ == old(out)@ + text@.take(n as int),
{
    let mut i: usize = 0;
    assert(out@ =~= out@ + text@.take(0));
    while i < n
        invariant
            i <= n <= text@.len(),
            out@ == old(out)@ + text@.take(i as int),
        decreases n - i,
    {
        out.push(text[i]);
        i = i + 1;
        assert(out@ =~= old(out)@ + text@.take(i as int));
    }
}

/// Appends a cell as wide as its column.
fn push_fitted(out: &mut Vec<char>, row: &Vec<Vec<char>>, c: usize, width: usize)
    requires
        width >= 1,
    ensures
        final(out)@ == old(out)@ + fitted(
            cell_text(char_lists(row@), c as int),
            width as nat,
        ),
{
    let ghost text = cell_text(char_lists(row@), c as int);
    let ghost start = out@;
    if c >= row.len() {
        push_run(out, ' ', width);
        assert(out@ =~= start + fitted(text, width as nat));
        return ;
    }
    let n: usize = row[c].len();
    if n <= width {
        push_start(out, &row[c], n);
        push_run(out, ' ', width - n);
        assert(text.take(n as int) =~= text);
    } else {
        push_start(out, &row[c], width - 1);
        out.push('…');
    }
    assert(out@ =~= start + fitted(text, width as nat));
}

/// A row as wide as the columns.
fn make_row(row: &Vec<Vec<char>>, widths: &Vec<usize>) -> (line: Vec<char>)
    requires
        forall|c: int| 0 <= c < widths@.len() ==> #[trigger] widths@[c] >= 1,
    ensures
        line@ == row_line(char_lists(row@), counts(widths@)),
{
    let ghost model = counts(widths@);
    let ghost parts = Seq::new(
        model.len(),
        |c: int| fitted(cell_text(char_lists(row@), c), model[c]),
    );
    let mut line: Vec<char> = Vec::new();
    let mut c: usize = 0;
    assert(parts.take(0) =~= Seq::empty());
    while c < widths.len()
        invariant
            c <= widths@.len(),
            forall|k: int| 0 <= k < widths@.len() ==> #[trigger] widths@[k] >= 1,
            model == counts(widths@),
            parts == Seq::new(
                model.len(),
                |k: int| fitted(cell_text(char_lists(row@), k), model[k]),
            ),
            line@ == joined(parts.take(c as int)),
        decreases widths@.len() - c,
    {
        proof {
            assert(parts.take(c + 1).drop_last() =~= parts.take(c as int));
            assert(parts.take(c + 1).last() == parts[c as int]);
        }
        let ghost before = line@;
        if c > 0 {
            line.push(' ');
            line.push(' ');
        }
        push_fitted(&mut line, row, c, widths[c]);
        c = c + 1;
        proof {
            if c == 1 {
                assert(line@ =~= parts.take(1)[0]);
            } else {
                assert(line@ =~= before + seq![' ', ' '] + parts[c - 1]);
            }
        }
    }
    assert(parts.take(c as int) =~= parts);
    line
}

/// The row of dashes below the header.
fn make_dashes(widths: &Vec<usize>) -> (line: Vec<char>)
    ensures
        line@ == dash_line(counts(widths@)),
{
    let ghost model = counts(widths@);
    let ghost parts = Seq::new(model.len(), |c: int| run_of('-', model[c]));
    let mut line: Vec<char> = Vec::new();
    let mut c: usize = 0;
    assert(parts.take(0) =~= Seq::empty());
    while c < widths.len()
        invariant
            c <= widths@.len(),
            model == counts(widths@),
            parts == Seq::new(model.len(), |k: int| run_of('-', model[k])),
            line@ == joined(parts.take(c as int)),
        decreases widths@.len() - c,
    {
        proof {
            assert(parts.take(c + 1).drop_last() =~= parts.take(c as int));
            assert(parts.take(c + 1).last() == parts[c as int]);
        }
        let ghost before = line@;
        if c > 0 {
            line.push(' ');
            line.push(' ');
        }
        push_run(&mut line, '-', widths[c]);
        c = c + 1;
        proof {
            if c == 1 {
                assert(line@ =~= parts.take(1)[0]);
            } else {
                assert(line@ =~= before + seq![' ', ' '] + parts[c - 1]);
            }
        }
    }
    assert(parts.take(c as int) =~= parts);
    line
}

/// The lines of a table.
pub fn lay_out(rows: &Vec<Vec<Vec<char>>>) -> (lines: Vec<Vec<char>>)
    ensures
        char_lists(lines@) == table_lines(cells_text(rows@)),
{
    let mut lines: Vec<Vec<char>> = Vec::new();
    let ghost model = cells_text(rows@);
    if rows.len() == 0 || rows[0].len() == 0 {
        assert(char_lists(lines@) =~= table_lines(model));
        return lines;
    }
    let mut widths: Vec<usize> = Vec::new();
    let mut c: usize = 0;
    while c < rows[0].len()
        invariant
            rows@.len() > 0,
            model == cells_text(rows@),
            c <= rows@[0]@.len(),
            counts(widths@) == natural_widths(model).take(c as int),
            forall|k: int| 0 <= k < widths@.len() ==> #[trigger] widths@[k] >= 1,
        decreases rows@[0]@.len() - c,
    {
        let ghost before = counts(widths@);
        let w: usize = measure(rows, c);
        widths.push(w);
        proof {
            assert(model[0] == char_lists(rows@[0]@));
            assert(counts(widths@) =~= before.push(w as nat));
            assert(natural_widths(model).take(c + 1) =~= natural_widths(model).take(c as int).push(
                natural_widths(model)[c as int],
            ));
        }
        c = c + 1;
    }
    assert(model[0] == char_lists(rows@[0]@));
    assert(natural_widths(model).take(c as int) =~= natural_widths(model));
    proof {
        assert forall|k: int| 0 <= k < counts(widths@).len() implies #[trigger] counts(widths@)[k]
            >= 1 by {
            assert(widths@[k] >= 1);
        }
        columns_stay_readable(counts(widths@));
    }
    shrink(&mut widths);
    let ghost sizes = column_widths(model);
    assert forall|k: int| 0 <= k < widths@.len() implies #[trigger] widths@[k] >= 1 by {
        assert(counts(widths@)[k] >= 1);
    }
    lines.push(make_row(&rows[0], &widths));
    lines.push(make_dashes(&widths));
    let mut r: usize = 1;
    assert(char_lists(lines@) =~= table_lines(model).take(2));
    while r < rows.len()
        invariant
            1 <= r <= rows@.len(),
            model == cells_text(rows@),
            model[0].len() > 0,
            sizes == column_widths(model),
            counts(widths@) == sizes,
            forall|k: int| 0 <= k < widths@.len() ==> #[trigger] widths@[k] >= 1,
            char_lists(lines@) == table_lines(model).take(r + 1),
        decreases rows@.len() - r,
    {
        let ghost before = char_lists(lines@);
        let line: Vec<char> = make_row(&rows[r], &widths);
        let ghost text = line@;
        lines.push(line);
        proof {
            assert(model[r as int] == char_lists(rows@[r as int]@));
            assert(char_lists(lines@) =~= before.push(text));
            assert(table_lines(model)[r + 1] == text);
            assert(char_lists(lines@) =~= table_lines(model).take(r + 2));
        }
        r = r + 1;
    }
    assert(char_lists(lines@) =~= table_lines(model));
    lines
}

/// No column is narrowed below three characters, and none is widened.
pub proof fn columns_stay_readable(widths: Seq<nat>)
    ensures
        shrunk(widths).len() == widths.len(),
        forall|c: int|
            0 <= c < widths.len() ==> #[trigger] shrunk(widths)[c] <= widths[c] && (shrunk(
                widths,
            )[c] == widths[c] || shrunk(widths)[c] >= MIN_COLUMN),
    decreases total(widths),
{
    if !is_settled(widths) {
        lemma_narrower(widths);
        lemma_widest(widths);
        columns_stay_readable(narrower(widths));
    }
}

/// Up to six columns always fit a line, however long their cells are.
pub proof fn six_columns_fit(widths: Seq<nat>)
    requires
        0 < widths.len() <= 6,
    ensures
        line_width(shrunk(widths)) <= BUDGET,
    decreases total(widths),
{
    if is_settled(widths) {
        lemma_widest(widths);
        if widths[widest(widths)] <= MIN_COLUMN {
            lemma_total_bound(widths, MIN_COLUMN as nat);
            assert(widths.len() * 3 <= 18);
        }
    } else {
        lemma_narrower(widths);
        six_columns_fit(narrower(widths));
    }
}

proof fn lemma_total_bound(widths: Seq<nat>, most: nat)
    requires
        forall|i: int| 0 <= i < widths.len() ==> #[trigger] widths[i] <= most,
    ensures
        total(widths) <= widths.len() * most,
    decreases widths.len(),
{
    if widths.len() > 0 {
        lemma_total_bound(widths.drop_last(), most);
        assert(widths.len() * most == (widths.len() - 1) * most + most) by (nonlinear_arith);
    }
}

/// A cell takes up its column, no more and no less.
pub proof fn cells_fill_their_column(text: Seq<char>, width: nat)
    requires
        width >= 1,
    ensures
        fitted(text, width).len() == width,
        text.len() <= width ==> fitted(text, width).take(text.len() as int) == text,
        text.len() > width ==> fitted(text, width).last() == '…' && fitted(text, width).take(
            width - 1,
        ) == text.take(width - 1),
{
    if text.len() <= width {
        assert(fitted(text, width).take(text.len() as int) =~= text);
    } else {
        assert(fitted(text, width).take(width - 1) =~= text.take(width - 1));
    }
}

} // verus!
