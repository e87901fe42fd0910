//! Styled text: spans on logical lines, and the rows they are broken into.
//!
//! A logical line wraps greedily at 384 px minus its indent: a row holds as many
//! whole words as fit, the spaces at a break are dropped, and a word that does
//! not fit a row of its own is broken where the row is full. Wrapped rows keep
//! the indent. A row is 1.3 times as tall as its largest font size; a line
//! without any span is as tall as body text.

use crate::raster::faces::{Faces, FontStyle};
use crate::strings::chars_of;
use vstd::prelude::*;

verus! {

/// Body text size: 24 px in 64ths.
pub const BODY_SIZE: u32 = 1536;

/// The style of a span.
#[derive(Debug, Clone, Copy, PartialEq, Eq, Structural)]
pub struct Style {
    pub font: FontStyle,
    /// Font size in 64ths of a pixel.
    pub size: u32,
    /// Whether a line is drawn through the text.
    pub strike: bool,
}

impl Style {
    /// A style without a line through the text.
    pub fn new(font: FontStyle, size: u32) -> (style: Style)
        ensures
            style == (Style { font, size, strike: false }),
    {
        Style { font, size, strike: false }
    }
}

/// Regular body text.
impl Default for Style {
    fn default() -> (style: Style)
        ensures
            style == (Style { font: FontStyle::Regular, size: BODY_SIZE, strike: false }),
    {
        Style { font: FontStyle::Regular, size: BODY_SIZE, strike: false }
    }
}

/// Text in one style.
#[derive(Debug)]
pub struct Span {
    pub text: String,
    pub style: Style,
}

/// One logical line (may wrap to several rows).
#[derive(Debug)]
pub struct RichLine {
    pub spans: Vec<Span>,
    /// Left indent in pixels (lists, blockquotes, code).
    pub indent: u32,
}

/// A [`Span`] with its text as a sequence.
#[verifier::ext_equal]
pub struct SpanText {
    pub text: Seq<char>,
    pub style: Style,
}

/// A [`RichLine`] with its spans as a sequence.
#[verifier::ext_equal]
pub struct LineText {
    pub spans: Seq<SpanText>,
    pub indent: u32,
}

impl View for Span {
    type V = SpanText;

    open spec fn view(&self) -> SpanText {
        SpanText { text: self.text@, style: self.style }
    }
}

/// The spans of a list, with their text as sequences.
pub open spec fn span_texts(spans: Seq<Span>) -> Seq<SpanText> {
    Seq::new(spans.len(), |i: int| spans[i]@)
}

impl View for RichLine {
    type V = LineText;

    open spec fn view(&self) -> LineText {
        LineText { spans: span_texts(self.spans@), indent: self.indent }
    }
}

/// The lines of a list, with their spans as sequences.
pub open spec fn line_texts(lines: Seq<RichLine>) -> Seq<LineText> {
    Seq::new(lines.len(), |i: int| lines[i]@)
}

/// A line without spans.
impl Default for RichLine {
    fn default() -> (line: RichLine)
        ensures
            line@ == (LineText { spans: Seq::empty(), indent: 0 }),
    {
        let line: RichLine = RichLine { spans: Vec::new(), indent: 0 };
        assert(line@.spans =~= Seq::empty());
        line
    }
}

/// A character in its style.
#[derive(Debug, Clone, Copy, PartialEq, Eq, Structural)]
pub struct Cell {
    pub ch: char,
    pub style: Style,
}

/// One printed row of text.
#[derive(Debug)]
pub struct Row {
    pub cells: Vec<Cell>,
    /// Left indent in pixels.
    pub indent: u32,
    /// The largest font size on the row.
    pub size: u32,
}

/// A [`Row`] with its cells as a sequence.
#[verifier::ext_equal]
pub struct RowText {
    pub cells: Seq<Cell>,
    pub indent: u32,
    pub size: u32,
}

impl View for Row {
    type V = RowText;

    open spec fn view(&self) -> RowText {
        RowText { cells: self.cells@, indent: self.indent, size: self.size }
    }
}

/// The rows of a list, with their cells as sequences.
pub open spec fn row_texts(rows: Seq<Row>) -> Seq<RowText> {
    Seq::new(rows.len(), |i: int| rows[i]@)
}

/// A character in a style.
pub open spec fn cell(ch: char, style: Style) -> Cell {
    Cell { ch, style }
}

/// The characters of some text in one style.
pub open spec fn styled(text: Seq<char>, style: Style) -> Seq<Cell> {
    Seq::new(text.len(), |i: int| cell(text[i], style))
}

/// The characters of all spans of a line.
pub open spec fn cells_of(spans: Seq<SpanText>) -> Seq<Cell>
    decreases spans.len(),
{
    if spans.len() == 0 {
        Seq::empty()
    } else {
        cells_of(spans.drop_last()) + styled(spans.last().text, spans.last().style)
    }
}

/// The larger of two sizes.
pub open spec fn larger(a: u32, b: u32) -> u32 {
    if a < b {
        b
    } else {
        a
    }
}

/// The largest font size of some characters.
pub open spec fn largest(cells: Seq<Cell>) -> u32
    decreases cells.len(),
{
    if cells.len() == 0 {
        0
    } else {
        larger(largest(cells.drop_last()), cells.last().style.size)
    }
}

/// The largest font size of some spans.
pub open spec fn largest_span(spans: Seq<SpanText>) -> u32
    decreases spans.len(),
{
    if spans.len() == 0 {
        0
    } else {
        larger(largest_span(spans.drop_last()), spans.last().style.size)
    }
}

/// The font size that a line without characters is as tall as.
pub open spec fn blank_size(spans: Seq<SpanText>) -> u32 {
    if spans.len() == 0 {
        BODY_SIZE
    } else {
        largest_span(spans)
    }
}

/// How far the pen moves on for a character.
pub open spec fn advance(faces: &Faces, cell: Cell) -> int {
    faces.advance(cell.ch, cell.style.font, cell.style.size) as int
}

/// How far the pen moves on for some characters.
pub open spec fn width_of(faces: &Faces, cells: Seq<Cell>) -> int
    decreases cells.len(),
{
    if cells.len() == 0 {
        0
    } else {
        width_of(faces, cells.drop_last()) + advance(faces, cells.last())
    }
}

/// What a row may be wide, in 64ths of a pixel.
pub open spec fn room(indent: u32) -> int {
    if indent < 384 {
        64 * (384 - indent)
    } else {
        0
    }
}

/// Where the characters from `from` on no longer fit: the characters up to `to`,
/// `width` wide, do. One character always fits.
pub open spec fn reach(
    faces: &Faces,
    cells: Seq<Cell>,
    from: int,
    to: int,
    width: int,
    limit: int,
) -> int
    decreases cells.len() - to,
{
    if to >= cells.len() || (to > from && width + advance(faces, cells[to]) > limit) {
        to
    } else {
        reach(faces, cells, from, to + 1, width + advance(faces, cells[to]), limit)
    }
}

/// Whether a word ends right before `k`.
pub open spec fn word_ends(cells: Seq<Cell>, k: int) -> bool {
    0 < k < cells.len() && cells[k].ch == ' ' && cells[k - 1].ch != ' '
}

/// The last place up to `k` where a word ends, `from` if there is none behind it.
pub open spec fn last_word_end(cells: Seq<Cell>, from: int, k: int) -> int
    decreases k - from,
{
    if k <= from {
        from
    } else if word_ends(cells, k) {
        k
    } else {
        last_word_end(cells, from, k - 1)
    }
}

/// The first character from `k` on that is no space.
pub open spec fn skip_spaces(cells: Seq<Cell>, k: int) -> int
    decreases cells.len() - k,
{
    if k < cells.len() && cells[k].ch == ' ' {
        skip_spaces(cells, k + 1)
    } else {
        k
    }
}

/// Where the row that starts at `from` ends, and where the next one starts.
pub open spec fn cut(faces: &Faces, cells: Seq<Cell>, from: int, limit: int) -> (int, int) {
    let full = reach(faces, cells, from, from, 0, limit);
    let word = last_word_end(cells, from, full);
    if full >= cells.len() || word == from {
        (full, full)
    } else {
        (word, skip_spaces(cells, word))
    }
}

pub proof fn lemma_reach(
    faces: &Faces,
    cells: Seq<Cell>,
    from: int,
    to: int,
    width: int,
    limit: int,
)
    requires
        0 <= from <= to <= cells.len(),
    ensures
        to <= reach(faces, cells, from, to, width, limit) <= cells.len(),
        from < cells.len() ==> from < reach(faces, cells, from, to, width, limit),
    decreases cells.len() - to,
{
    if !(to >= cells.len() || (to > from && width + advance(faces, cells[to]) > limit)) {
        lemma_reach(faces, cells, from, to + 1, width + advance(faces, cells[to]), limit);
    }
}

pub proof fn lemma_last_word_end(cells: Seq<Cell>, from: int, k: int)
    requires
        0 <= from <= k <= cells.len(),
    ensures
        from <= last_word_end(cells, from, k) <= k,
    decreases k - from,
{
    if k > from && !word_ends(cells, k) {
        lemma_last_word_end(cells, from, k - 1);
    }
}

pub proof fn lemma_skip_spaces(cells: Seq<Cell>, k: int)
    requires
        0 <= k <= cells.len(),
    ensures
        k <= skip_spaces(cells, k) <= cells.len(),
        forall|i: int| k <= i < skip_spaces(cells, k) ==> (#[trigger] cells[i]).ch == ' ',
    decreases cells.len() - k,
{
    if k < cells.len() && cells[k].ch == ' ' {
        lemma_skip_spaces(cells, k + 1);
    }
}

pub proof fn lemma_cut(faces: &Faces, cells: Seq<Cell>, from: int, limit: int)
    requires
        0 <= from < cells.len(),
    ensures
        from < cut(faces, cells, from, limit).0 <= cut(faces, cells, from, limit).1 <= cells.len(),
{
    lemma_reach(faces, cells, from, from, 0, limit);
    let full = reach(faces, cells, from, from, 0, limit);
    lemma_last_word_end(cells, from, full);
    lemma_skip_spaces(cells, last_word_end(cells, from, full));
}

/// The rows that the characters from `from` on are broken into.
pub open spec fn wrapped(faces: &Faces, cells: Seq<Cell>, from: int, indent: u32) -> Seq<RowText>
    decreases cells.len() - from,
{
    if from < 0 || from >= cells.len() {
        Seq::empty()
    } else {
        proof {
            lemma_cut(faces, cells, from, room(indent));
        }
        let (end, next) = cut(faces, cells, from, room(indent));
        let row = cells.subrange(from, end);
        seq![RowText { cells: row, indent, size: largest(row) }] + wrapped(
            faces,
            cells,
            next,
            indent,
        )
    }
}

/// The rows of a logical line.
pub open spec fn line_rows(faces: &Faces, line: LineText) -> Seq<RowText> {
    let cells = cells_of(line.spans);
    if cells.len() == 0 {
        seq![RowText { cells, indent: line.indent, size: blank_size(line.spans) }]
    } else {
        wrapped(faces, cells, 0, line.indent)
    }
}

/// The rows of all lines.
pub open spec fn rows_of(faces: &Faces, lines: Seq<LineText>) -> Seq<RowText>
    decreases lines.len(),
{
    if lines.len() == 0 {
        Seq::empty()
    } else {
        rows_of(faces, lines.drop_last()) + line_rows(faces, lines.last())
    }
}

/// The characters of a line and the largest size of its spans.
fn collect_cells(spans: &Vec<Span>) -> (r: (Vec<Cell>, u32))
    ensures
        r.0@ == cells_of(span_texts(spans@)),
        r.1 == largest_span(span_texts(spans@)),
{
    let mut cells: Vec<Cell> = Vec::new();
    let mut size: u32 = 0;
    let mut i: usize = 0;
    assert(span_texts(spans@).take(0) =~= Seq::empty());
    while i < spans.len()
        invariant
            i <= spans@.len(),
            cells@ == cells_of(span_texts(spans@).take(i as int)),
            size == largest_span(span_texts(spans@).take(i as int)),
        decreases spans@.len() - i,
    {
        let ghost before = cells@;
        let ghost part = span_texts(spans@).take(i + 1);
        assert(part.drop_last() =~= span_texts(spans@).take(i as int));
        let text: Vec<char> = chars_of(spans[i].text.as_str());
        let style: Style = spans[i].style;
        if size < style.size {
            size = style.size;
        }
        let mut k: usize = 0;
        while k < text.len()
            invariant
                k <= text@.len(),
                cells@ == before + styled(text@, style).take(k as int),
            decreases text@.len() - k,
        {
            let ghost shorter = cells@;
            cells.push(Cell { ch: text[k], style });
            k = k + 1;
            assert(cells@ =~= shorter.push(cell(text@[k - 1], style)));
            assert(styled(text@, style)[k - 1] == cell(text@[k - 1], style));
            assert(cells@ =~= before + styled(text@, style).take(k as int));
        }
        assert(styled(text@, style).take(k as int) =~= styled(text@, style));
        i = i + 1;
    }
    assert(span_texts(spans@).take(i as int) =~= span_texts(spans@));
    (cells, size)
}

/// Where the row that starts at `from` ends, and where the next one starts.
fn find_cut(cells: &Vec<Cell>, faces: &Faces, from: usize, limit: u64) -> (r: (usize, usize))
    requires
        from < cells@.len(),
        limit <= 24_576,
    ensures
        (r.0 as int, r.1 as int) == cut(faces, cells@, from as int, limit as int),
        from < r.0 <= r.1 <= cells@.len(),
{
    proof {
        lemma_cut(faces, cells@, from as int, limit as int);
    }
    let n: usize = cells.len();
    let mut to: usize = from;
    let mut width: u64 = 0;
    loop
        invariant
            from <= to <= n,
            n == cells@.len(),
            limit <= 24_576,
            to == from ==> width == 0,
            width <= 24_576 + 0x1_0000_0000,
            reach(faces, cells@, from as int, to as int, width as int, limit as int) == reach(
                faces,
                cells@,
                from as int,
                from as int,
                0,
                limit as int,
            ),
        ensures
            from <= to <= n,
            to == reach(faces, cells@, from as int, from as int, 0, limit as int),
        decreases n - to,
    {
        if to >= n {
            break;
        }
        let cell: Cell = cells[to];
        let step: u32 = faces.advance_of(cell.ch, cell.style.font, cell.style.size);
        if to > from && width + step as u64 > limit {
            break;
        }
        width = width + step as u64;
        to = to + 1;
    }
    if to >= n {
        return (to, to);
    }
    let mut word: usize = to;
    while word > from && !(cells[word].ch == ' ' && cells[word - 1].ch != ' ')
        invariant
            from <= word <= to < n,
            n == cells@.len(),
            last_word_end(cells@, from as int, word as int) == last_word_end(
                cells@,
                from as int,
                to as int,
            ),
        decreases word - from,
    {
        assert(!word_ends(cells@, word as int));
        word = word - 1;
    }
    assert(word > from ==> word_ends(cells@, word as int));
    if word == from {
        return (to, to);
    }
    let mut next: usize = word;
    while next < n && cells[next].ch == ' '
        invariant
            word <= next <= n,
            n == cells@.len(),
            skip_spaces(cells@, next as int) == skip_spaces(cells@, word as int),
        decreases n - next,
    {
        next = next + 1;
    }
    (word, next)
}

/// A row of the characters from `from` up to `end`.
fn take_row(cells: &Vec<Cell>, from: usize, end: usize, indent: u32) -> (row: Row)
    requires
        from <= end <= cells@.len(),
    ensures
        row@ == (RowText {
            cells: cells@.subrange(from as int, end as int),
            indent,
            size: largest(cells@.subrange(from as int, end as int)),
        }),
{
    let mut part: Vec<Cell> = Vec::new();
    let mut size: u32 = 0;
    let mut k: usize = from;
    assert(cells@.subrange(from as int, from as int) =~= Seq::empty());
    while k < end
        invariant
            from <= k <= end <= cells@.len(),
            part@ == cells@.subrange(from as int, k as int),
            size == largest(cells@.subrange(from as int, k as int)),
        decreases end - k,
    {
        let cell: Cell = cells[k];
        part.push(cell);
        if size < cell.style.size {
            size = cell.style.size;
        }
        proof {
            let longer = cells@.subrange(from as int, k + 1);
            assert(longer.drop_last() =~= cells@.subrange(from as int, k as int));
            assert(part@ =~= longer);
        }
        k = k + 1;
    }
    Row { cells: part, indent, size }
}

/// Breaks a logical line into rows, which go behind those of `rows`.
fn break_line(line: &RichLine, faces: &Faces, rows: &mut Vec<Row>)
    ensures
        row_texts(final(rows)@) == row_texts(old(rows)@) + line_rows(faces, line@),
{
    let (cells, size) = collect_cells(&line.spans);
    let ghost done = row_texts(rows@);
    if cells.len() == 0 {
        let blank: u32 = if line.spans.len() == 0 {
            BODY_SIZE
        } else {
            size
        };
        let row: Row = Row { cells, indent: line.indent, size: blank };
        let ghost model = row@;
        rows.push(row);
        assert(row_texts(rows@) =~= done.push(model));
        assert(row_texts(rows@) =~= done + line_rows(faces, line@));
        return ;
    }
    let limit: u64 = if line.indent < 384 {
        64 * (384 - line.indent as u64)
    } else {
        0
    };
    let mut from: usize = 0;
    assert(row_texts(rows@) + wrapped(faces, cells@, 0, line.indent) =~= done + line_rows(
        faces,
        line@,
    ));
    while from < cells.len()
        invariant
            from <= cells@.len(),
            limit == room(line.indent),
            row_texts(rows@) + wrapped(faces, cells@, from as int, line.indent) == done + line_rows(
                faces,
                line@,
            ),
        decreases cells@.len() - from,
    {
        let ghost before = row_texts(rows@);
        let ghost rest = wrapped(faces, cells@, from as int, line.indent);
        let (end, next) = find_cut(&cells, faces, from, limit);
        let row: Row = take_row(&cells, from, end, line.indent);
        let ghost model = row@;
        rows.push(row);
        proof {
            assert(row_texts(rows@) =~= before.push(model));
            let later = wrapped(faces, cells@, next as int, line.indent);
            assert(rest =~= seq![model] + later);
            assert(row_texts(rows@) + later =~= before + rest);
        }
        from = next;
    }
    assert(row_texts(rows@) =~= row_texts(rows@) + wrapped(
        faces,
        cells@,
        from as int,
        line.indent,
    ));
}

/// Breaks logical lines into rows.
pub fn break_lines(lines: &Vec<RichLine>, faces: &Faces) -> (rows: Vec<Row>)
    ensures
        row_texts(rows@) == rows_of(faces, line_texts(lines@)),
{
    let mut rows: Vec<Row> = Vec::new();
    let mut i: usize = 0;
    assert(line_texts(lines@).take(0) =~= Seq::empty());
    assert(row_texts(rows@) =~= Seq::empty());
    while i < lines.len()
        invariant
            i <= lines@.len(),
            row_texts(rows@) == rows_of(faces, line_texts(lines@).take(i as int)),
        decreases lines@.len() - i,
    {
        let ghost part = line_texts(lines@).take(i + 1);
        assert(part.drop_last() =~= line_texts(lines@).take(i as int));
        break_line(&lines[i], faces, &mut rows);
        i = i + 1;
    }
    assert(line_texts(lines@).take(i as int) =~= line_texts(lines@));
    rows
}

/// The characters that are no spaces.
pub open spec fn without_spaces(cells: Seq<Cell>) -> Seq<Cell> {
    cells.filter(|c: Cell| c.ch != ' ')
}

/// The characters of some rows, one row behind the other.
pub open spec fn printed(rows: Seq<RowText>) -> Seq<Cell>
    decreases rows.len(),
{
    if rows.len() == 0 {
        Seq::empty()
    } else {
        rows[0].cells + printed(rows.skip(1))
    }
}

/// Every row of a wrapped line fits between the indent and the edge of the paper,
/// unless a single character is wider than that.
pub proof fn rows_fit_the_paper(
    faces: &Faces,
    cells: Seq<Cell>,
    from: int,
    indent: u32,
    i: int,
)
    requires
        0 <= from <= cells.len(),
        0 <= i < wrapped(faces, cells, from, indent).len(),
    ensures
        ({
            let row = wrapped(faces, cells, from, indent)[i];
            row.cells.len() == 1 || (row.cells.len() > 1 && width_of(faces, row.cells) <= room(
                indent,
            ))
        }),
    decreases cells.len() - from,
{
    let limit = room(indent);
    lemma_cut(faces, cells, from, limit);
    let (end, next) = cut(faces, cells, from, limit);
    if i == 0 {
        let full = reach(faces, cells, from, from, 0, limit);
        assert(cells.subrange(from, from) =~= Seq::empty());
        lemma_reach_fits(faces, cells, from, from, limit);
        lemma_reach(faces, cells, from, from, 0, limit);
        lemma_last_word_end(cells, from, full);
        lemma_shorter_fits(faces, cells, from, end, full);
    } else {
        rows_fit_the_paper(faces, cells, next, indent, i - 1);
        assert(wrapped(faces, cells, from, indent)[i] == wrapped(faces, cells, next, indent)[i
            - 1]);
    }
}

proof fn lemma_reach_fits(faces: &Faces, cells: Seq<Cell>, from: int, to: int, limit: int)
    requires
        0 <= from <= to <= cells.len(),
        to <= from + 1 || width_of(faces, cells.subrange(from, to)) <= limit,
    ensures
        ({
            let full = reach(
                faces,
                cells,
                from,
                to,
                width_of(faces, cells.subrange(from, to)),
                limit,
            );
            full <= from + 1 || width_of(faces, cells.subrange(from, full)) <= limit
        }),
    decreases cells.len() - to,
{
    let width = width_of(faces, cells.subrange(from, to));
    if !(to >= cells.len() || (to > from && width + advance(faces, cells[to]) > limit)) {
        assert(cells.subrange(from, to + 1).drop_last() =~= cells.subrange(from, to));
        assert(cells.subrange(from, to + 1).last() == cells[to]);
        lemma_reach_fits(faces, cells, from, to + 1, limit);
    }
}

proof fn lemma_shorter_fits(faces: &Faces, cells: Seq<Cell>, from: int, end: int, full: int)
    requires
        0 <= from <= end <= full <= cells.len(),
    ensures
        width_of(faces, cells.subrange(from, end)) <= width_of(faces, cells.subrange(from, full)),
    decreases full - end,
{
    if end < full {
        assert(cells.subrange(from, full).drop_last() =~= cells.subrange(from, full - 1));
        lemma_shorter_fits(faces, cells, from, end, full - 1);
    }
}

/// Wrapping drops nothing but spaces and changes the order of nothing.
pub proof fn wrapping_drops_spaces_only(
    faces: &Faces,
    cells: Seq<Cell>,
    from: int,
    indent: u32,
)
    requires
        0 <= from <= cells.len(),
    ensures
        without_spaces(printed(wrapped(faces, cells, from, indent))) == without_spaces(
            cells.skip(from),
        ),
    decreases cells.len() - from,
{
    let rows = wrapped(faces, cells, from, indent);
    let solid = |c: Cell| c.ch != ' ';
    if from == cells.len() {
        assert(printed(rows) =~= cells.skip(from));
    } else {
        let limit = room(indent);
        lemma_cut(faces, cells, from, limit);
        let (end, next) = cut(faces, cells, from, limit);
        let row = cells.subrange(from, end);
        let gap = cells.subrange(end, next);
        let later = wrapped(faces, cells, next, indent);
        wrapping_drops_spaces_only(faces, cells, next, indent);
        assert(rows.skip(1) =~= later);
        assert(rows[0].cells == row);
        assert(printed(rows) == row + printed(later));
        Seq::filter_distributes_over_add(row, printed(later), solid);
        let full = reach(faces, cells, from, from, 0, limit);
        lemma_reach(faces, cells, from, from, 0, limit);
        lemma_last_word_end(cells, from, full);
        lemma_skip_spaces(cells, last_word_end(cells, from, full));
        assert forall|i: int| 0 <= i < gap.len() implies (#[trigger] gap[i]).ch == ' ' by {
            assert(gap[i] == cells[end + i]);
        }
        lemma_no_solid(gap);
        assert(cells.skip(from) =~= row + (gap + cells.skip(next)));
        Seq::filter_distributes_over_add(row, gap + cells.skip(next), solid);
        Seq::filter_distributes_over_add(gap, cells.skip(next), solid);
        assert(without_spaces(gap) + without_spaces(cells.skip(next)) =~= without_spaces(
            cells.skip(next),
        ));
    }
}

proof fn lemma_no_solid(gap: Seq<Cell>)
    requires
        forall|i: int| 0 <= i < gap.len() ==> (#[trigger] gap[i]).ch == ' ',
    ensures
        without_spaces(gap) == Seq::<Cell>::empty(),
    decreases gap.len(),
{
    reveal(Seq::filter);
    if gap.len() > 0 {
        lemma_no_solid(gap.drop_last());
    }
}

} // verus!
