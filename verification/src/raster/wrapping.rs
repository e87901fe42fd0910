//! What word wrap promises of the rows that a line is broken into.

use vstd::prelude::*;
#[allow(unused_imports)]
use crate::raster::faces::Faces;
#[allow(unused_imports)]
use crate::raster::rich::{
    advance, cells_of, cut, largest, largest_span, last_word_end, lemma_cut, lemma_last_word_end,
    lemma_reach, lemma_skip_spaces, line_rows, reach, room, rows_of, skip_spaces, width_of,
    word_ends, wrapped, Cell, LineText, RowText, SpanText,
};

verus! {

/// Whether a word ends before place `k`, with a space behind it.
pub open spec fn ends_a_word(cells: Seq<Cell>, k: int) -> bool {
    0 < k < cells.len() && cells[k - 1].ch != ' ' && cells[k].ch == ' '
}

/// Whether the characters from `start` up to `end` take up more than `limit`.
pub open spec fn is_too_wide(
    faces: &Faces,
    cells: Seq<Cell>,
    start: int,
    end: int,
    limit: int,
) -> bool {
    width_of(faces, cells.subrange(start, end)) > limit
}

/// Whether a row from `start` up to `end`, with the next one from `next` on, is
/// broken where word wrap breaks it.
///
/// Between the rows are spaces only, and a row of more than one character fits.
/// A row ends where the text does; or behind a word, with no room for the next
/// word too, and the next row starts with a word; or, if no word ends on it, where
/// there is no room for the next character.
pub open spec fn is_word_wrap(
    faces: &Faces,
    cells: Seq<Cell>,
    start: int,
    end: int,
    next: int,
    limit: int,
) -> bool {
    &&& 0 <= start < end <= next <= cells.len()
    &&& forall|k: int| end <= k < next ==> (#[trigger] cells[k]).ch == ' '
    &&& end == start + 1 || !is_too_wide(faces, cells, start, end, limit)
    &&& {
        ||| end == cells.len()
        ||| {
            &&& ends_a_word(cells, end)
            &&& next == cells.len() || cells[next].ch != ' '
            &&& is_too_wide(faces, cells, start, cells.len() as int, limit)
            &&& forall|k: int|
                end < k && #[trigger] ends_a_word(cells, k) ==> is_too_wide(
                    faces,
                    cells,
                    start,
                    k,
                    limit,
                )
        }
        ||| {
            &&& next == end
            &&& forall|k: int| start < k <= end ==> !#[trigger] ends_a_word(cells, k)
            &&& is_too_wide(faces, cells, start, end + 1, limit)
        }
    }
}

/// Whether `size` is the largest font size among some characters.
pub open spec fn is_largest_size(cells: Seq<Cell>, size: u32) -> bool {
    &&& forall|k: int| 0 <= k < cells.len() ==> (#[trigger] cells[k]).style.size <= size
    &&& exists|k: int| 0 <= k < cells.len() && (#[trigger] cells[k]).style.size == size
}

/// Whether some rows start at these places of a text, the last place being its
/// end, and are broken as word wrap breaks them.
pub open spec fn are_wrapped_at(
    faces: &Faces,
    cells: Seq<Cell>,
    indent: u32,
    rows: Seq<RowText>,
    starts: Seq<int>,
) -> bool {
    &&& starts.len() == rows.len() + 1
    &&& starts.last() == cells.len()
    &&& forall|i: int|
        0 <= i < rows.len() ==> {
            let row = #[trigger] rows[i];
            let start = starts[i];
            let end = start + row.cells.len();
            let width = if indent < 384 {
                384 - indent
            } else {
                0
            };
            &&& is_word_wrap(faces, cells, start, end, starts[i + 1], 64 * width)
            &&& row.cells == cells.subrange(start, end)
            &&& row.indent == indent
            &&& is_largest_size(row.cells, row.size)
        }
}

proof fn lemma_wider(faces: &Faces, cells: Seq<Cell>, start: int, end: int, longer: int)
    requires
        0 <= start <= end <= longer <= cells.len(),
    ensures
        width_of(faces, cells.subrange(start, end)) <= width_of(
            faces,
            cells.subrange(start, longer),
        ),
    decreases longer - end,
{
    if end < longer {
        assert(cells.subrange(start, longer).drop_last() =~= cells.subrange(start, longer - 1));
        lemma_wider(faces, cells, start, end, longer - 1);
    }
}

proof fn lemma_full(faces: &Faces, cells: Seq<Cell>, from: int, to: int, limit: int)
    requires
        0 <= from <= to <= cells.len(),
        to <= from + 1 || width_of(faces, cells.subrange(from, to)) <= limit,
    ensures
        ({
            let full = reach(
                faces,
                cells,
                from,
                to,
                width_of(faces, cells.subrange(from, to)),
                limit,
            );
            &&& to <= full <= cells.len()
            &&& full <= from + 1 || !is_too_wide(faces, cells, from, full, limit)
            &&& full < cells.len() ==> is_too_wide(faces, cells, from, full + 1, limit)
        }),
    decreases cells.len() - to,
{
    let width = width_of(faces, cells.subrange(from, to));
    if to < cells.len() {
        assert(cells.subrange(from, to + 1).drop_last() =~= cells.subrange(from, to));
        assert(cells.subrange(from, to + 1).last() == cells[to]);
    }
    if !(to >= cells.len() || (to > from && width + advance(faces, cells[to]) > limit)) {
        lemma_full(faces, cells, from, to + 1, limit);
    }
}

proof fn lemma_last_word(cells: Seq<Cell>, from: int, k: int)
    requires
        0 <= from <= k < cells.len(),
    ensures
        ({
            let word = last_word_end(cells, from, k);
            &&& word > from ==> ends_a_word(cells, word)
            &&& forall|j: int| word < j <= k ==> !#[trigger] ends_a_word(cells, j)
        }),
    decreases k - from,
{
    if k > from && !word_ends(cells, k) {
        lemma_last_word(cells, from, k - 1);
    }
}

proof fn lemma_skipped(cells: Seq<Cell>, k: int)
    requires
        0 <= k <= cells.len(),
    ensures
        skip_spaces(cells, k) == cells.len() || cells[skip_spaces(cells, k)].ch != ' ',
    decreases cells.len() - k,
{
    if k < cells.len() && cells[k].ch == ' ' {
        lemma_skipped(cells, k + 1);
    }
}

proof fn lemma_one_row(faces: &Faces, cells: Seq<Cell>, from: int, limit: int)
    requires
        0 <= from < cells.len(),
    ensures
        ({
            let (end, next) = cut(faces, cells, from, limit);
            is_word_wrap(faces, cells, from, end, next, limit)
        }),
{
    let full = reach(faces, cells, from, from, 0, limit);
    let (end, next) = cut(faces, cells, from, limit);
    assert(cells.subrange(from, from) =~= Seq::empty());
    lemma_cut(faces, cells, from, limit);
    lemma_reach(faces, cells, from, from, 0, limit);
    lemma_full(faces, cells, from, from, limit);
    if full < cells.len() {
        lemma_last_word_end(cells, from, full);
        lemma_last_word(cells, from, full);
        let word = last_word_end(cells, from, full);
        lemma_skip_spaces(cells, word);
        lemma_skipped(cells, word);
        if word > from {
            lemma_wider(faces, cells, from, word, full);
            lemma_wider(faces, cells, from, full + 1, cells.len() as int);
            assert forall|k: int| end < k && #[trigger] ends_a_word(cells, k) implies is_too_wide(
                faces,
                cells,
                from,
                k,
                limit,
            ) by {
                lemma_wider(faces, cells, from, full + 1, k);
            }
        }
    }
}

proof fn lemma_largest(cells: Seq<Cell>)
    requires
        cells.len() > 0,
    ensures
        is_largest_size(cells, largest(cells)),
    decreases cells.len(),
{
    let n = cells.len() - 1;
    if n > 0 {
        let rest = cells.drop_last();
        lemma_largest(rest);
        let k = choose|k: int| 0 <= k < rest.len() && (#[trigger] rest[k]).style.size == largest(rest);
        assert(cells[k].style.size == largest(rest));
        assert forall|k: int| 0 <= k < cells.len() implies (#[trigger] cells[k]).style.size
            <= largest(cells) by {
            if k < n {
                assert(rest[k].style.size <= largest(rest));
            }
        }
        assert(cells[n].style.size <= largest(cells));
    } else {
        assert(cells.drop_last() =~= Seq::empty());
        assert(largest(cells.drop_last()) == 0);
        assert(cells.last() == cells[0]);
        assert(cells[0].style.size == largest(cells));
    }
}

/// Words stay whole, and the wrap is greedy: the text from any place on is broken
/// into rows behind words, each with as many words as there is room for. Only a
/// word that is alone on its row and does not fit it is broken inside.
pub proof fn rows_break_between_words(faces: &Faces, cells: Seq<Cell>, from: int, indent: u32)
    requires
        0 <= from <= cells.len(),
    ensures
        exists|starts: Seq<int>| #[trigger]
            are_wrapped_at(faces, cells, indent, wrapped(faces, cells, from, indent), starts)
                && starts[0] == from,
    decreases cells.len() - from,
{
    let rows = wrapped(faces, cells, from, indent);
    if from == cells.len() {
        assert(are_wrapped_at(faces, cells, indent, rows, seq![from]));
    } else {
        let limit = room(indent);
        let (end, next) = cut(faces, cells, from, limit);
        lemma_cut(faces, cells, from, limit);
        lemma_one_row(faces, cells, from, limit);
        lemma_largest(cells.subrange(from, end));
        rows_break_between_words(faces, cells, next, indent);
        let later = wrapped(faces, cells, next, indent);
        let rest = choose|starts: Seq<int>| #[trigger]
            are_wrapped_at(faces, cells, indent, later, starts) && starts[0] == next;
        let starts = seq![from] + rest;
        assert(rows.len() == later.len() + 1);
        assert(starts.last() == rest.last());
        assert forall|i: int| 0 <= i < rows.len() implies {
            let row = #[trigger] rows[i];
            let start = starts[i];
            let end = start + row.cells.len();
            let width = if indent < 384 {
                384 - indent
            } else {
                0
            };
            &&& is_word_wrap(faces, cells, start, end, starts[i + 1], 64 * width)
            &&& row.cells == cells.subrange(start, end)
            &&& row.indent == indent
            &&& is_largest_size(row.cells, row.size)
        } by {
            if i > 0 {
                assert(rows[i] == later[i - 1]);
                assert(starts[i] == rest[i - 1]);
                assert(starts[i + 1] == rest[i]);
            } else {
                assert(starts[1] == rest[0]);
            }
        }
        assert(are_wrapped_at(faces, cells, indent, rows, starts));
    }
}

/// The rows of a line that has any text are its text under word wrap, from its
/// first character on, and all of them keep the line's indent.
pub proof fn lines_wrap_at_words(faces: &Faces, line: LineText)
    requires
        cells_of(line.spans).len() > 0,
    ensures
        exists|starts: Seq<int>| #[trigger]
            are_wrapped_at(
                faces,
                cells_of(line.spans),
                line.indent,
                line_rows(faces, line),
                starts,
            ) && starts[0] == 0,
{
    let cells = cells_of(line.spans);
    rows_break_between_words(faces, cells, 0, line.indent);
    assert(line_rows(faces, line) == wrapped(faces, cells, 0, line.indent));
    let starts = choose|starts: Seq<int>| #[trigger]
        are_wrapped_at(faces, cells, line.indent, wrapped(faces, cells, 0, line.indent), starts)
            && starts[0] == 0;
    assert(are_wrapped_at(faces, cells, line.indent, line_rows(faces, line), starts));
}

/// A line without characters takes up one row without characters, as tall as text of
/// its largest font size, and as body text of 24 pixels where it has no spans.
pub proof fn a_blank_line_takes_a_row(faces: &Faces, line: LineText)
    requires
        cells_of(line.spans).len() == 0,
    ensures
        ({
            let rows = line_rows(faces, line);
            &&& rows.len() == 1
            &&& rows[0].cells.len() == 0 && rows[0].indent == line.indent
            &&& line.spans.len() == 0 ==> rows[0].size == 24 * 64
            &&& line.spans.len() > 0 ==> {
                &&& forall|k: int|
                    0 <= k < line.spans.len() ==> (#[trigger] line.spans[k]).style.size
                        <= rows[0].size
                &&& exists|k: int|
                    0 <= k < line.spans.len() && (#[trigger] line.spans[k]).style.size
                        == rows[0].size
            }
        }),
{
    if line.spans.len() > 0 {
        lemma_largest_span(line.spans);
    }
}

proof fn lemma_largest_span(spans: Seq<SpanText>)
    requires
        spans.len() > 0,
    ensures
        forall|k: int|
            0 <= k < spans.len() ==> (#[trigger] spans[k]).style.size <= largest_span(spans),
        exists|k: int|
            0 <= k < spans.len() && (#[trigger] spans[k]).style.size == largest_span(spans),
    decreases spans.len(),
{
    let shorter = spans.drop_last();
    assert(spans.last() == spans[spans.len() - 1]);
    if shorter.len() > 0 {
        lemma_largest_span(shorter);
        assert forall|k: int| 0 <= k < spans.len() implies (#[trigger] spans[k]).style.size
            <= largest_span(spans) by {
            if k < shorter.len() {
                assert(shorter[k] == spans[k]);
            }
        }
        let k = choose|k: int|
            0 <= k < shorter.len() && (#[trigger] shorter[k]).style.size == largest_span(shorter);
        assert(spans[k].style.size == largest_span(shorter));
    } else {
        assert(largest_span(shorter) == 0);
    }
}

/// The characters of a line are those of its spans, in order, each in the style of
/// its span.
pub proof fn characters_keep_their_order_and_style(spans: Seq<SpanText>, more: SpanText, k: int)
    ensures
        cells_of(Seq::empty()).len() == 0,
        cells_of(spans.push(more)).len() == cells_of(spans).len() + more.text.len(),
        0 <= k < cells_of(spans).len() ==> cells_of(spans.push(more))[k] == cells_of(spans)[k],
        0 <= k < more.text.len() ==> {
            let c = cells_of(spans.push(more))[cells_of(spans).len() + k];
            c.ch == more.text[k] && c.style == more.style
        },
{
    assert(spans.push(more).drop_last() =~= spans);
}

/// Widths add up, character by character.
pub proof fn widths_add_up(faces: &Faces, a: Seq<Cell>, b: Seq<Cell>, c: Cell)
    ensures
        width_of(faces, a + b) == width_of(faces, a) + width_of(faces, b),
        width_of(faces, seq![c]) == faces.advance(c.ch, c.style.font, c.style.size),
    decreases b.len(),
{
    assert(seq![c].drop_last() =~= Seq::empty());
    assert(width_of(faces, Seq::empty()) == 0);
    if b.len() > 0 {
        widths_add_up(faces, a, b.drop_last(), c);
        assert((a + b).drop_last() =~= a + b.drop_last());
    } else {
        assert(a + b =~= a);
    }
}

/// The rows of a document are those of its lines, in order.
pub proof fn lines_follow_each_other(faces: &Faces, a: Seq<LineText>, b: Seq<LineText>)
    ensures
        rows_of(faces, a + b) == rows_of(faces, a) + rows_of(faces, b),
    decreases b.len(),
{
    if b.len() > 0 {
        lines_follow_each_other(faces, a, b.drop_last());
        assert((a + b).drop_last() =~= a + b.drop_last());
        assert(rows_of(faces, a + b) =~= rows_of(faces, a) + rows_of(faces, b));
    } else {
        assert(a + b =~= a);
        assert(rows_of(faces, a) + rows_of(faces, b) =~= rows_of(faces, a));
    }
}

} // verus!
