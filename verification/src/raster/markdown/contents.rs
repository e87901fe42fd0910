//! What a document prints, in what order and in what style.

use vstd::prelude::*;
#[allow(unused_imports)]
use crate::raster::faces::FontStyle;
#[allow(unused_imports)]
use crate::raster::markdown::events::{Kind, Mark, WordText};
#[allow(unused_imports)]
use crate::raster::markdown::model::{
    blocks_of, code_lines, code_style, empty_line, fence_kind, first_token, flow_after, place_of,
    placeholder, without_blanks, BlockText, FenceText, FlowText,
};
#[allow(unused_imports)]
use crate::raster::markdown::tables::table_lines;
#[allow(unused_imports)]
use crate::raster::rich::{LineText, SpanText, Style};
#[allow(unused_imports)]
use crate::raster::text::{normalized, plain_line};
#[allow(unused_imports)]
use crate::strings::{
    is_white, joined, lemma_pieces_not_empty, pieces, skip_white, small_letters, trimmed,
};

verus! {

/// The text of some spans, one after the other.
pub open spec fn spans_text(spans: Seq<SpanText>) -> Seq<char>
    decreases spans.len(),
{
    if spans.len() == 0 {
        Seq::empty()
    } else {
        spans_text(spans.drop_last()) + spans.last().text
    }
}

/// The text of some lines, one after the other.
pub open spec fn lines_text(lines: Seq<LineText>) -> Seq<char>
    decreases lines.len(),
{
    if lines.len() == 0 {
        Seq::empty()
    } else {
        lines_text(lines.drop_last()) + spans_text(lines.last().spans)
    }
}

/// The text of some blocks, one after the other.
pub open spec fn blocks_text(blocks: Seq<BlockText>) -> Seq<char>
    decreases blocks.len(),
{
    if blocks.len() == 0 {
        Seq::empty()
    } else {
        blocks_text(blocks.drop_last()) + match blocks.last() {
            BlockText::Lines(lines) => lines_text(lines),
            _ => Seq::empty(),
        }
    }
}

/// All text that is printed so far, from the first block to the line being built.
pub open spec fn shown(flow: FlowText) -> Seq<char> {
    blocks_text(flow.blocks) + lines_text(flow.lines) + spans_text(flow.current.spans)
}

proof fn lemma_push_span(spans: Seq<SpanText>, span: SpanText)
    ensures
        spans_text(spans.push(span)) == spans_text(spans) + span.text,
{
    assert(spans.push(span).drop_last() =~= spans);
}

proof fn lemma_push_line(lines: Seq<LineText>, line: LineText)
    ensures
        lines_text(lines.push(line)) == lines_text(lines) + spans_text(line.spans),
{
    assert(lines.push(line).drop_last() =~= lines);
}

proof fn lemma_push_block(blocks: Seq<BlockText>, block: BlockText)
    ensures
        blocks_text(blocks.push(block)) == blocks_text(blocks) + match block {
            BlockText::Lines(lines) => lines_text(lines),
            _ => Seq::empty(),
        },
{
    assert(blocks.push(block).drop_last() =~= blocks);
}

proof fn lemma_without_blanks(lines: Seq<LineText>)
    ensures
        lines_text(without_blanks(lines)) == lines_text(lines),
    decreases lines.len(),
{
    if lines.len() > 0 && lines.last().spans.len() == 0 {
        lemma_without_blanks(lines.drop_last());
        assert(lines_text(lines) =~= lines_text(lines.drop_last()));
    }
}

proof fn lemma_line_ended(flow: FlowText)
    ensures
        shown(flow.line_ended()) == shown(flow),
        flow.line_ended().current.spans.len() == 0,
{
    lemma_push_line(flow.lines, flow.current);
    assert(shown(flow.line_ended()) =~= shown(flow));
}

proof fn lemma_spaced(flow: FlowText)
    ensures
        shown(flow.spaced()) == shown(flow),
{
    lemma_push_line(flow.lines, empty_line(0));
    assert(shown(flow.spaced()) =~= shown(flow));
}

proof fn lemma_block_ended(flow: FlowText)
    ensures
        shown(flow.block_ended()) == shown(flow),
        flow.block_ended().current.spans.len() == 0,
        flow.block_ended().lines.len() == 0,
        blocks_text(flow.block_ended().blocks) == shown(flow),
{
    let ended = flow.line_ended();
    lemma_line_ended(flow);
    lemma_without_blanks(ended.lines);
    let lines = without_blanks(ended.lines);
    lemma_push_block(ended.blocks, BlockText::Lines(lines));
    assert(blocks_text(flow.block_ended().blocks) =~= shown(flow));
    assert(shown(flow.block_ended()) =~= shown(flow));
}

proof fn lemma_with_block(flow: FlowText, block: BlockText)
    requires
        !(block is Lines),
    ensures
        shown(flow.with_block(block)) == shown(flow),
        flow.with_block(block).blocks.last() == block,
        flow.with_block(block).blocks.len() > 0,
        blocks_text(flow.with_block(block).blocks.drop_last()) == shown(flow),
{
    lemma_block_ended(flow);
    let ended = flow.block_ended();
    lemma_push_block(ended.blocks, block);
    assert(flow.with_block(block).blocks.drop_last() =~= ended.blocks);
    assert(shown(flow.with_block(block)) =~= shown(flow));
}

proof fn lemma_with_text(flow: FlowText, text: Seq<char>, style: Style)
    ensures
        shown(flow.with_text(text, style)) == shown(flow) + normalized(text),
{
    lemma_push_span(flow.current.spans, SpanText { text: normalized(text), style });
    assert(shown(flow.with_text(text, style)) =~= shown(flow) + normalized(text));
}

/// Nothing that is said is lost or moved: text, inline code and breaks go to the
/// end of what is printed, in the style of the place.
pub proof fn what_is_said_is_printed_at_the_end(
    flow: FlowText,
    text: Seq<char>,
    names: Seq<Seq<char>>,
)
    requires
        flow.images == 0,
        flow.cell is None,
        flow.fence is None,
    ensures
        ({
            let said = flow.after(None, WordText::Text(text), names);
            let code = flow.after(None, WordText::Code(text), names);
            let soft = flow.after(None, WordText::SoftBreak, names);
            let hard = flow.after(None, WordText::HardBreak, names);
            &&& shown(said) == shown(flow) + normalized(text)
            &&& said.current.spans.last().style == flow.style()
            &&& shown(code) == shown(flow) + normalized(text)
            &&& shown(soft) == shown(flow).push(' ')
            &&& soft.lines == flow.lines
            &&& shown(hard) == shown(flow)
            &&& hard.current.spans.len() == 0
        }),
{
    lemma_with_text(flow, text, flow.style());
    lemma_with_text(flow, " "@, flow.style());
    lemma_line_ended(flow);
    reveal_strlit(" ");
    crate::raster::text::normalizing_goes_by_characters(Seq::empty(), ' ');
    assert(" "@ =~= Seq::<char>::empty().push(' '));
    assert(shown(flow.after(None, WordText::SoftBreak, names)) =~= shown(flow).push(' '));
}

/// Elements print nothing of their own, but for list items, which print their
/// marker: what opens or closes around a text leaves the text before it as it is.
pub proof fn elements_keep_the_text(
    flow: FlowText,
    open: bool,
    kind: Kind,
    word: WordText,
    names: Seq<Seq<char>>,
)
    requires
        flow.images == 0,
        open ==> !(kind is Item),
        !open ==> !(kind is CodeBlock) && !(kind is Table),
    ensures
        shown(flow.after(Some((open, kind)), word, names)) == shown(flow),
{
    lemma_line_ended(flow);
    lemma_spaced(flow.line_ended());
    lemma_spaced(flow);
    if !open && kind is List {
        let left = if flow.lists.len() > 0 {
            flow.lists.drop_last()
        } else {
            flow.lists
        };
        lemma_spaced(FlowText { lists: left, ..flow });
    }
}

/// An item prints its marker behind the text before it.
pub proof fn an_item_prints_its_marker(flow: FlowText, word: WordText, names: Seq<Seq<char>>)
    requires
        flow.images == 0,
    ensures
        ({
            let item = flow.after(Some((true, Kind::Item)), word, names);
            item.current.spans.len() == 1 && shown(item) == shown(flow)
                + item.current.spans[0].text
        }),
{
    lemma_line_ended(flow);
    let ended = flow.line_ended();
    let item = flow.after(Some((true, Kind::Item)), word, names);
    lemma_push_span(ended.current.spans, item.current.spans[0]);
    assert(item.current.spans =~= ended.current.spans.push(item.current.spans[0]));
    assert(shown(item) =~= shown(flow) + item.current.spans[0].text);
}

/// A code block that is a code or a pattern stands as a block of its own behind
/// all text before it.
pub proof fn a_fence_stands_behind_the_text_before_it(
    flow: FlowText,
    word: WordText,
    names: Seq<Seq<char>>,
)
    requires
        flow.images == 0,
        flow.fence matches Some(fence) && !(fence is Plain),
    ensures
        ({
            let after = flow.after(Some((false, Kind::CodeBlock)), word, names);
            &&& blocks_text(after.blocks.drop_last()) == shown(flow)
            &&& shown(after) == shown(flow)
            &&& after.fence is None
            &&& match flow.fence->Some_0 {
                FenceText::Qr => after.blocks.last() == BlockText::Qr(trimmed(flow.body)),
                FenceText::Barcode => after.blocks.last() == BlockText::Barcode(
                    trimmed(flow.body),
                ),
                FenceText::Wagara(pattern) => after.blocks.last() == BlockText::Wagara(
                    pattern,
                    trimmed(flow.body),
                ),
                FenceText::Plain => true,
            }
        }),
{
    let data = trimmed(flow.body);
    let block = match flow.fence {
        Some(FenceText::Qr) => BlockText::Qr(data),
        Some(FenceText::Barcode) => BlockText::Barcode(data),
        Some(FenceText::Wagara(pattern)) => BlockText::Wagara(pattern, data),
        _ => BlockText::Rule,
    };
    lemma_with_block(flow, block);
    let done = flow.with_block(block);
    lemma_spaced(FlowText { fence: None, body: Seq::empty(), ..done }.with_indent(0));
}

/// A thematic break stands as a block of its own behind all text before it.
pub proof fn a_break_stands_behind_the_text_before_it(
    flow: FlowText,
    source: Seq<char>,
    names: Seq<Seq<char>>,
)
    requires
        flow.images == 0,
    ensures
        ({
            let after = flow.after(None, WordText::Rule(source), names);
            let gaps = exists|i: int|
                0 <= i < trimmed(source).len() && is_white(#[trigger] trimmed(source)[i]);
            &&& blocks_text(after.blocks.drop_last()) == shown(flow)
            &&& shown(after) == shown(flow)
            &&& gaps ==> after.blocks.last() == BlockText::Tear
            &&& !gaps ==> after.blocks.last() == BlockText::Rule
        }),
{
    lemma_with_block(flow, BlockText::Tear);
    lemma_with_block(flow, BlockText::Rule);
}

proof fn lemma_found(names: Seq<Seq<char>>, name: Seq<char>, i: int)
    requires
        0 <= i,
    ensures
        match place_of(names, name, i) {
            Some(k) => i <= k < names.len() && names[k] == name && forall|j: int|
                i <= j < k ==> #[trigger] names[j] != name,
            None => forall|j: int| i <= j < names.len() ==> #[trigger] names[j] != name,
        },
    decreases names.len() - i,
{
    if i < names.len() && names[i] != name {
        lemma_found(names, name, i + 1);
    }
}

/// An image that was resolved stands as a block of its own behind all text before
/// it, and it is the image of the name that the document gives. One that was not
/// is a line that names it: by its alternative text, or else by its target.
pub proof fn an_image_stands_behind_the_text_before_it(
    flow: FlowText,
    word: WordText,
    names: Seq<Seq<char>>,
    label: Seq<char>,
)
    requires
        flow.images == 1,
        flow.cell is None,
        label == normalized(
            "[image: "@ + (if flow.alt.len() > 0 {
                flow.alt
            } else if flow.target.len() > 0 {
                flow.target
            } else {
                "?"@
            }) + "]"@,
        ),
    ensures
        ({
            let after = flow.after(Some((false, Kind::Image)), word, names);
            &&& after.images == 0
            &&& names.contains(flow.target) ==> {
                &&& blocks_text(after.blocks.drop_last()) == shown(flow)
                &&& shown(after) == shown(flow)
                &&& after.blocks.last() matches BlockText::Image(k) && 0 <= k < names.len()
                    && names[k] == flow.target
            }
            &&& !names.contains(flow.target) ==> {
                &&& shown(after) == shown(flow) + label
                &&& after.lines.last().spans.len() == 1
                &&& after.lines.last().spans[0].text == label
                &&& after.lines.last().spans[0].style.font == FontStyle::Italic
            }
        }),
{
    lemma_found(names, flow.target, 0);
    let out = FlowText { images: 0, ..flow };
    let text = placeholder(flow.alt, flow.target);
    assert(shown(out) == shown(flow));
    match place_of(names, flow.target, 0) {
        Some(k) => {
            assert(names[k] == flow.target);
            lemma_with_block(out, BlockText::Image(k));
        },
        None => {
            if names.contains(flow.target) {
                let j = choose|j: int| 0 <= j < names.len() && names[j] == flow.target;
                assert(names[j] != flow.target);
            }
            let style = Style {
                font: FontStyle::Italic,
                size: flow.size(),
                strike: flow.strike > 0,
            };
            lemma_line_ended(out);
            lemma_with_text(out.line_ended(), text, style);
            lemma_line_ended(out.line_ended().with_text(text, style));
        },
    }
}

/// The document is what its events print: all of the text, in order.
pub proof fn a_document_shows_all_that_is_said(
    marks: Seq<Mark>,
    words: Seq<WordText>,
    names: Seq<Seq<char>>,
)
    ensures
        blocks_text(blocks_of(marks, words, names)) == shown(
            flow_after(marks, words, names, marks.len() as int),
        ),
        shown(flow_after(marks, words, names, 0)) == Seq::<char>::empty(),
{
    lemma_block_ended(flow_after(marks, words, names, marks.len() as int));
    assert(shown(flow_after(marks, words, names, 0)) =~= Seq::empty());
}

proof fn lemma_code(flow: FlowText, text: Seq<char>)
    ensures
        ({
            let parts = pieces(flow.body + text, '\n');
            let after = flow.with_code(text);
            !flow.body.contains('\n') ==> {
                &&& after.lines == flow.lines + code_lines(
                    parts.drop_last(),
                    flow.current.indent,
                )
                &&& after.body == parts.last()
                &&& after.current == flow.current
                &&& after.blocks == flow.blocks
            }
        }),
    decreases text.len(),
{
    let parts = pieces(flow.body + text, '\n');
    if !flow.body.contains('\n') {
        if text.len() == 0 {
            assert(flow.body + text =~= flow.body);
            lemma_whole(flow.body, '\n');
            assert(parts.drop_last() =~= Seq::empty());
            assert(flow.lines + code_lines(parts.drop_last(), flow.current.indent) =~= flow.lines);
        } else {
            let less = text.drop_last();
            lemma_code(flow, less);
            lemma_pieces_not_empty(flow.body + less, '\n');
            assert((flow.body + text).drop_last() =~= flow.body + less);
            let before = pieces(flow.body + less, '\n');
            let indent = flow.current.indent;
            if text.last() == '\n' {
                assert(parts.drop_last() =~= before);
                assert(code_lines(before, indent) =~= code_lines(before.drop_last(), indent).push(
                    plain_line(before.last(), code_style(), indent),
                ));
                assert(flow.with_code(text).lines =~= flow.lines + code_lines(before, indent));
            } else {
                assert(parts.drop_last() =~= before.drop_last());
            }
        }
    }
}

proof fn lemma_whole(text: Seq<char>, c: char)
    requires
        !text.contains(c),
    ensures
        pieces(text, c) == seq![text],
    decreases text.len(),
{
    if text.len() > 0 {
        let less = text.drop_last();
        if less.contains(c) {
            let k = choose|k: int| 0 <= k < less.len() && less[k] == c;
            assert(text[k] == c);
        }
        lemma_whole(less, c);
        assert(text.last() == text[text.len() - 1]);
        assert(text.last() != c);
        assert(less.push(text.last()) =~= text);
        assert(pieces(text, c) =~= seq![text]);
    } else {
        assert(text =~= Seq::empty());
    }
}

/// Code keeps its lines: each is a line of its own, as it is, at 20 px and with
/// the indent of the block.
pub proof fn code_keeps_its_lines(flow: FlowText, text: Seq<char>, names: Seq<Seq<char>>)
    requires
        flow.images == 0,
        flow.cell is None,
        flow.fence == Some(FenceText::Plain),
        flow.body.len() == 0,
    ensures
        ({
            let code = flow.after(None, WordText::Text(text), names);
            let added = code.lines.skip(flow.lines.len() as int);
            let parts = Seq::new(added.len(), |i: int| added[i].spans[0].text).push(code.body);
            &&& code.lines.take(flow.lines.len() as int) == flow.lines
            &&& joined(parts, '\n') == normalized(text)
            &&& !code.body.contains('\n')
            &&& forall|i: int|
                0 <= i < added.len() ==> {
                    let line = #[trigger] added[i];
                    &&& line.spans.len() == 1
                    &&& !line.spans[0].text.contains('\n')
                    &&& line.indent == flow.current.indent
                    &&& line.spans[0].style == (Style {
                        font: FontStyle::Regular,
                        size: 1280,
                        strike: false,
                    })
                }
        }),
{
    let body = normalized(text);
    lemma_code(flow, body);
    assert(flow.body + body =~= body);
    lemma_pieces_not_empty(body, '\n');
    crate::strings::pieces_make_up_the_text(body, '\n');
    let code = flow.after(None, WordText::Text(text), names);
    let all = pieces(body, '\n');
    let more = code_lines(all.drop_last(), flow.current.indent);
    assert(!flow.body.contains('\n'));
    assert(code.lines == flow.lines + more);
    let added = code.lines.skip(flow.lines.len() as int);
    assert(added =~= more);
    let parts = Seq::new(added.len(), |i: int| added[i].spans[0].text).push(code.body);
    assert(parts =~= all);
    assert(code.lines.take(flow.lines.len() as int) =~= flow.lines);
    assert forall|i: int| 0 <= i < added.len() implies {
        let line = #[trigger] added[i];
        &&& line.spans.len() == 1
        &&& !line.spans[0].text.contains('\n')
        &&& line.indent == flow.current.indent
        &&& line.spans[0].style == (Style { font: FontStyle::Regular, size: 1280, strike: false })
    } by {
        assert(added[i].spans[0].text == all[i]);
        assert(!all[i].contains('\n'));
    }
    assert(code.body == all[all.len() - 1]);
}

/// The last line of a code block ends with the block, if there is anything on it.
pub proof fn the_last_code_line_ends_with_the_block(
    flow: FlowText,
    word: WordText,
    names: Seq<Seq<char>>,
)
    requires
        flow.images == 0,
        flow.fence == Some(FenceText::Plain),
    ensures
        ({
            let after = flow.after(Some((false, Kind::CodeBlock)), word, names);
            &&& shown(after) == blocks_text(flow.blocks) + lines_text(flow.lines) + flow.body
                + spans_text(flow.current.spans)
            &&& after.blocks == flow.blocks
            &&& after.fence is None
            &&& after.body.len() == 0
        }),
{
    let line = plain_line(flow.body, code_style(), flow.current.indent);
    lemma_push_line(flow.lines, line);
    lemma_push_span(Seq::empty(), line.spans[0]);
    assert(line.spans =~= Seq::<SpanText>::empty().push(line.spans[0]));
    assert(spans_text(line.spans) =~= flow.body);
    let done = if flow.body.len() > 0 {
        flow.code_line_ended()
    } else {
        flow
    };
    lemma_spaced(FlowText { fence: None, body: Seq::empty(), ..done }.with_indent(0));
    assert(shown(done) =~= blocks_text(flow.blocks) + lines_text(flow.lines) + flow.body
        + spans_text(flow.current.spans));
}

/// A table prints its lines behind the text before it, as code text.
pub proof fn a_table_prints_its_lines(flow: FlowText, word: WordText, names: Seq<Seq<char>>)
    requires
        flow.images == 0,
    ensures
        ({
            let after = flow.after(Some((false, Kind::Table)), word, names);
            let table = table_lines(flow.rows);
            let n = flow.lines.len() as int;
            &&& after.lines.len() >= n + table.len()
            &&& after.lines.take(n) == flow.lines
            &&& forall|i: int|
                0 <= i < table.len() ==> #[trigger] after.lines[n + i] == (LineText {
                    spans: seq![
                        SpanText {
                            text: table[i],
                            style: Style { font: FontStyle::Regular, size: 1280, strike: false },
                        },
                    ],
                    indent: 0,
                })
            &&& after.lines.len() > n + table.len() ==> after.lines.len() == n + table.len() + 1
                && after.lines.last().spans.len() == 0
            &&& after.blocks == flow.blocks
            &&& after.current == flow.current
        }),
{
    let after = flow.after(Some((false, Kind::Table)), word, names);
    assert(after.lines.take(flow.lines.len() as int) =~= flow.lines);
}

/// Cells are collected in order: text goes to the open cell, a closed cell to the
/// end of its row, a closed row to the end of the table.
pub proof fn tables_are_read_in_order(
    flow: FlowText,
    text: Seq<char>,
    cell: Seq<char>,
    word: WordText,
    names: Seq<Seq<char>>,
)
    requires
        flow.images == 0,
        flow.cell == Some(cell),
    ensures
        flow.after(None, WordText::Text(text), names).cell == Some(cell + normalized(text)),
        flow.after(Some((false, Kind::TableCell)), word, names).row == flow.row.push(cell),
        flow.after(Some((false, Kind::TableRow)), word, names).rows == flow.rows.push(flow.row),
        flow.after(Some((false, Kind::TableHead)), word, names).rows == flow.rows.push(flow.row),
        flow.after(Some((true, Kind::TableRow)), word, names).row.len() == 0,
        flow.after(Some((true, Kind::TableHead)), word, names).row.len() == 0,
        flow.after(Some((true, Kind::TableCell)), word, names).cell == Some(Seq::<char>::empty()),
        flow.after(Some((true, Kind::Table)), word, names).rows.len() == 0,
{
}

/// The style of text: bold in headings and strong text, else italic in emphasis
/// and quotes, else regular; headings at 36, 30 or 26 px, all else at 24 px; with a
/// line through it where it is struck.
pub proof fn text_has_the_style_of_its_place(
    flow: FlowText,
    level: u8,
    word: WordText,
    names: Seq<Seq<char>>,
)
    requires
        flow.images == 0,
        level >= 1,
    ensures
        ({
            let heading = flow.after(Some((true, Kind::Heading(level))), word, names);
            let strong = flow.after(Some((true, Kind::Strong)), word, names);
            let emphasis = flow.after(Some((true, Kind::Emphasis)), word, names);
            let struck = flow.after(Some((true, Kind::Strike)), word, names);
            let quote = flow.after(Some((true, Kind::Quote)), word, names);
            &&& heading.style().font == FontStyle::Bold
            &&& heading.style().size == 64 * if level == 1 {
                36
            } else if level == 2 {
                30
            } else {
                26int
            }
            &&& heading.after(Some((false, Kind::Heading(level))), word, names).heading is None
            &&& strong.style().font == FontStyle::Bold
            &&& struck.style().strike
            &&& flow.heading is None && flow.bold == 0 ==> emphasis.style().font
                == FontStyle::Italic && quote.style().font == FontStyle::Italic
            &&& flow.heading is None && flow.bold == 0 && flow.italic == 0 && flow.quotes == 0
                ==> flow.style() == (Style {
                font: FontStyle::Regular,
                size: 1536,
                strike: flow.strike > 0,
            })
            &&& flow.heading is None ==> flow.style().size == 64 * 24
            &&& flow.strike == 0 ==> !flow.style().strike
        }),
{
}

/// Paragraphs and headings are indented by 24 px for each quote around them, code
/// by 16 px more.
pub proof fn quotes_indent(flow: FlowText, level: u8, word: WordText, names: Seq<Seq<char>>)
    requires
        flow.images == 0,
        flow.quotes <= 1_000_000,
    ensures
        flow.lists.len() == 0 ==> flow.after(
            Some((true, Kind::Paragraph)),
            word,
            names,
        ).current.indent == 24 * flow.quotes,
        flow.after(Some((true, Kind::Heading(level))), word, names).current.indent == 24
            * flow.quotes,
        flow.after(Some((true, Kind::CodeBlock)), word, names).current.indent == 24 * flow.quotes
            + 16,
        flow.after(Some((true, Kind::Quote)), word, names).quotes == flow.quotes + 1,
        flow.lists.len() == 0 ==> flow.after(
            Some((false, Kind::Paragraph)),
            word,
            names,
        ).current.indent == 0,
{
}

/// Headings and paragraphs are kept apart from what follows by a blank line, and
/// headings from what stands above them.
pub proof fn headings_and_paragraphs_stand_apart(
    flow: FlowText,
    level: u8,
    word: WordText,
    names: Seq<Seq<char>>,
)
    requires
        flow.images == 0,
        flow.current.spans.len() > 0,
    ensures
        ({
            let opened = flow.after(Some((true, Kind::Heading(level))), word, names);
            let closed = flow.after(Some((false, Kind::Heading(level))), word, names);
            let ended = flow.after(Some((false, Kind::Paragraph)), word, names);
            let n = flow.lines.len() as int;
            let apart = flow.lines.push(flow.current).push(empty_line(0));
            &&& opened.lines == apart
            &&& closed.lines == apart
            &&& flow.lists.len() == 0 ==> ended.lines == apart
            &&& flow.lists.len() > 0 ==> ended.lines == flow.lines.push(flow.current)
            &&& apart[n + 1].spans.len() == 0
        }),
{
}

} // verus!
