//! What holds of every document.

use vstd::prelude::*;
#[allow(unused_imports)]
use crate::raster::faces::FontStyle;
#[allow(unused_imports)]
use crate::raster::markdown::events::{Kind, Mark, WordText};
#[allow(unused_imports)]
use crate::raster::markdown::model::{
    blocks_of, code_lines, flow_after, place_of, placeholder, without_blanks, BlockText, FenceText,
    FlowText,
};
#[allow(unused_imports)]
use crate::raster::markdown::tables::table_lines;
#[allow(unused_imports)]
use crate::raster::rich::{LineText, Style};
#[allow(unused_imports)]
use crate::raster::text::normalized;
#[allow(unused_imports)]
use crate::strings::trimmed;

verus! {

/// Whether some lines do not start with a blank line, and nowhere have two blank
/// lines in a row.
pub open spec fn is_tidy(lines: Seq<LineText>) -> bool {
    forall|k: int|
        0 <= k < lines.len() && (#[trigger] lines[k]).spans.len() == 0 ==> k > 0 && lines[k
            - 1].spans.len() > 0
}

/// Whether some lines are tidy and do not end with a blank line either.
pub open spec fn is_trim(lines: Seq<LineText>) -> bool {
    is_tidy(lines) && lines.len() > 0 && lines.last().spans.len() > 0
}

/// Whether all blocks of text are trim.
pub open spec fn blocks_trim(blocks: Seq<BlockText>) -> bool {
    forall|k: int|
        0 <= k < blocks.len() ==> (#[trigger] blocks[k] matches BlockText::Lines(lines) ==> is_trim(
            lines,
        ))
}

proof fn lemma_trimmed_lines(lines: Seq<LineText>)
    requires
        is_tidy(lines),
    ensures
        without_blanks(lines).len() == 0 || is_trim(without_blanks(lines)),
    decreases lines.len(),
{
    if lines.len() > 0 && lines.last().spans.len() == 0 {
        assert forall|k: int|
            0 <= k < lines.drop_last().len() && (
            #[trigger] lines.drop_last()[k]).spans.len() == 0 implies k > 0 && lines.drop_last()[k
            - 1].spans.len() > 0 by {
            assert(lines[k].spans.len() == 0);
        }
        lemma_trimmed_lines(lines.drop_last());
    }
}

/// Whether all that has been lowered so far is tidy.
#[verifier::opaque]
spec fn is_neat(lines: Seq<LineText>, blocks: Seq<BlockText>) -> bool {
    is_tidy(lines) && blocks_trim(blocks)
}

proof fn lemma_line_ended(flow: FlowText)
    requires
        is_neat(flow.lines, flow.blocks),
    ensures
        is_neat(flow.line_ended().lines, flow.line_ended().blocks),
{
    reveal(is_neat);
}

proof fn lemma_spaced(flow: FlowText)
    requires
        is_neat(flow.lines, flow.blocks),
    ensures
        is_neat(flow.spaced().lines, flow.spaced().blocks),
{
    reveal(is_neat);
}

proof fn lemma_code_line_ended(flow: FlowText)
    requires
        is_neat(flow.lines, flow.blocks),
    ensures
        is_neat(flow.code_line_ended().lines, flow.code_line_ended().blocks),
{
    reveal(is_neat);
}

proof fn lemma_block_ended(flow: FlowText)
    requires
        is_neat(flow.lines, flow.blocks),
    ensures
        is_neat(flow.block_ended().lines, flow.block_ended().blocks),
{
    reveal(is_neat);
    lemma_trimmed_lines(flow.line_ended().lines);
}

proof fn lemma_with_block(flow: FlowText, block: BlockText)
    requires
        is_neat(flow.lines, flow.blocks),
        !(block is Lines),
    ensures
        is_neat(flow.with_block(block).lines, flow.with_block(block).blocks),
{
    lemma_block_ended(flow);
    reveal(is_neat);
}

proof fn lemma_code(flow: FlowText, text: Seq<char>)
    requires
        is_neat(flow.lines, flow.blocks),
    ensures
        is_neat(flow.with_code(text).lines, flow.with_code(text).blocks),
    decreases text.len(),
{
    if text.len() > 0 {
        lemma_code(flow, text.drop_last());
        lemma_code_line_ended(flow.with_code(text.drop_last()));
    }
}

proof fn lemma_more_lines(lines: Seq<LineText>, more: Seq<LineText>)
    requires
        is_tidy(lines),
        forall|k: int| 0 <= k < more.len() ==> (#[trigger] more[k]).spans.len() > 0,
    ensures
        is_tidy(lines + more),
{
    let all = lines + more;
    assert forall|k: int| 0 <= k < all.len() && (#[trigger] all[k]).spans.len() == 0 implies k > 0
        && all[k - 1].spans.len() > 0 by {
        if k >= lines.len() {
            assert(all[k] == more[k - lines.len()]);
        } else {
            assert(all[k] == lines[k]);
            assert(all[k - 1] == lines[k - 1]);
        }
    }
}

proof fn lemma_opened(flow: FlowText, kind: Kind, word: WordText)
    requires
        is_neat(flow.lines, flow.blocks),
    ensures
        is_neat(flow.opened(kind, word).lines, flow.opened(kind, word).blocks),
{
    lemma_line_ended(flow);
    lemma_spaced(flow.line_ended());
}

proof fn lemma_code_ended(flow: FlowText)
    requires
        is_neat(flow.lines, flow.blocks),
    ensures
        is_neat(flow.code_ended().lines, flow.code_ended().blocks),
{
    lemma_with_block(flow, BlockText::Qr(trimmed(flow.body)));
    lemma_with_block(flow, BlockText::Barcode(trimmed(flow.body)));
    if let Some(FenceText::Wagara(pattern)) = flow.fence {
        lemma_with_block(flow, BlockText::Wagara(pattern, trimmed(flow.body)));
    }
    lemma_code_line_ended(flow);
    let done = match flow.fence {
        Some(FenceText::Qr) => flow.with_block(BlockText::Qr(trimmed(flow.body))),
        Some(FenceText::Barcode) => flow.with_block(BlockText::Barcode(trimmed(flow.body))),
        Some(FenceText::Wagara(pattern)) => flow.with_block(
            BlockText::Wagara(pattern, trimmed(flow.body)),
        ),
        _ => if flow.body.len() > 0 {
            flow.code_line_ended()
        } else {
            flow
        },
    };
    lemma_spaced(FlowText { fence: None, body: Seq::empty(), ..done }.with_indent(0));
}

proof fn lemma_closed(flow: FlowText, kind: Kind)
    requires
        is_neat(flow.lines, flow.blocks),
    ensures
        is_neat(flow.closed(kind).lines, flow.closed(kind).blocks),
{
    lemma_line_ended(flow);
    lemma_spaced(flow.line_ended());
    match kind {
        Kind::List => {
            let left = if flow.lists.len() > 0 {
                flow.lists.drop_last()
            } else {
                flow.lists
            };
            lemma_spaced(FlowText { lists: left, ..flow });
        },
        Kind::CodeBlock => {
            lemma_code_ended(flow);
        },
        Kind::Table => {
            let table = code_lines(table_lines(flow.rows), 0);
            assert forall|k: int| 0 <= k < table.len() implies (
            #[trigger] table[k]).spans.len() > 0 by {}
            assert(is_neat(flow.lines + table, flow.blocks)) by {
                reveal(is_neat);
                lemma_more_lines(flow.lines, table);
            }
            lemma_spaced(FlowText { lines: flow.lines + table, rows: Seq::empty(), ..flow });
        },
        _ => {},
    }
}

proof fn lemma_said(flow: FlowText, word: WordText)
    requires
        is_neat(flow.lines, flow.blocks),
    ensures
        is_neat(flow.said(word).lines, flow.said(word).blocks),
{
    lemma_line_ended(flow);
    lemma_with_block(flow, BlockText::Rule);
    lemma_with_block(flow, BlockText::Tear);
    if let WordText::Text(text) = word {
        lemma_code(flow, normalized(text));
    }
}

proof fn lemma_image_ended(flow: FlowText, names: Seq<Seq<char>>)
    requires
        is_neat(flow.lines, flow.blocks),
    ensures
        is_neat(flow.image_ended(names).lines, flow.image_ended(names).blocks),
{
    let out = FlowText { images: 0, ..flow };
    if flow.cell is None {
        match place_of(names, flow.target, 0) {
            Some(i) => {
                lemma_with_block(out, BlockText::Image(i));
            },
            None => {
                lemma_line_ended(out);
                lemma_line_ended(
                    out.line_ended().with_text(
                        placeholder(flow.alt, flow.target),
                        Style {
                            font: FontStyle::Italic,
                            size: flow.size(),
                            strike: flow.strike > 0,
                        },
                    ),
                );
            },
        }
    }
}

proof fn lemma_flow(marks: Seq<Mark>, words: Seq<WordText>, names: Seq<Seq<char>>, n: int)
    ensures
        is_neat(
            flow_after(marks, words, names, n).lines,
            flow_after(marks, words, names, n).blocks,
        ),
    decreases n,
{
    if n > 0 {
        lemma_flow(marks, words, names, n - 1);
        let flow = flow_after(marks, words, names, n - 1);
        let mark = marks[n - 1];
        let word = words[n - 1];
        if flow.images > 0 {
            lemma_image_ended(flow, names);
        } else {
            match mark {
                Some((true, kind)) => {
                    lemma_opened(flow, kind, word);
                },
                Some((false, kind)) => {
                    lemma_closed(flow, kind);
                },
                None => {
                    lemma_said(flow, word);
                },
            }
        }
    } else {
        reveal(is_neat);
    }
}

/// No block of text begins or ends with a blank line, and nowhere are there two in
/// a row: blank lines separate, and nothing else.
pub proof fn blank_lines_only_separate(
    marks: Seq<Mark>,
    words: Seq<WordText>,
    names: Seq<Seq<char>>,
)
    ensures
        blocks_trim(blocks_of(marks, words, names)),
{
    let n = marks.len() as int;
    lemma_flow(marks, words, names, n);
    lemma_block_ended(flow_after(marks, words, names, n));
    reveal(is_neat);
}

/// Bold and italic do not compose: inside a heading or bold text, italics and
/// quotes make no difference.
pub proof fn bold_wins(flow: FlowText, other: FlowText)
    requires
        flow.heading is Some || flow.bold > 0,
        other == (FlowText { italic: other.italic, quotes: other.quotes, ..flow }),
    ensures
        flow.style() == other.style(),
        flow.style().font == FontStyle::Bold,
{
}

/// Headings below the second level are not told apart.
pub proof fn deep_headings_look_alike(flow: FlowText, a: u8, b: u8, word: WordText)
    requires
        a >= 3,
        b >= 3,
    ensures
        flow.opened(Kind::Heading(a), word) == flow.opened(Kind::Heading(b), word),
        flow.closed(Kind::Heading(a)) == flow.closed(Kind::Heading(b)),
{
}

/// Text in a table cell loses its formatting: what the cell holds does not
/// depend on the emphasis around it, and nothing reaches the line being built.
pub proof fn cells_lose_formatting(flow: FlowText, other: FlowText, text: Seq<char>)
    requires
        flow.cell is Some,
        other == (FlowText {
            bold: other.bold,
            italic: other.italic,
            strike: other.strike,
            ..flow
        }),
    ensures
        flow.said(WordText::Text(text)).cell == other.said(WordText::Text(text)).cell,
        flow.said(WordText::Code(text)).cell == other.said(WordText::Text(text)).cell,
        flow.said(WordText::Text(text)).current == flow.current,
{
}

/// Inline code looks like the text around it.
pub proof fn inline_code_is_plain(flow: FlowText, text: Seq<char>)
    requires
        flow.fence is None,
    ensures
        flow.said(WordText::Code(text)) == flow.said(WordText::Text(text)),
{
}

/// A link prints as its text: opening and closing it changes nothing.
pub proof fn links_print_as_their_text(flow: FlowText, word: WordText)
    ensures
        flow.opened(Kind::Other, word) == flow,
        flow.closed(Kind::Other) == flow,
{
}

/// A task marker takes the place of the bullet or the number: an item of a
/// numbered list and one of a bullet list print the same.
pub proof fn task_marker_replaces_the_prefix(
    flow: FlowText,
    lists: Seq<Option<u64>>,
    done: bool,
)
    requires
        lists.len() == flow.lists.len(),
    ensures
        ({
            let other = FlowText { lists, ..flow };
            let a = flow.opened(Kind::Item, WordText::Nothing).said(WordText::Task(done));
            let b = other.opened(Kind::Item, WordText::Nothing).said(WordText::Task(done));
            a.current == b.current && a.lines == b.lines && a.current.spans.len() == 1
        }),
{
}

/// Loose and tight list items print the same: a paragraph inside an item changes
/// nothing.
pub proof fn loose_items_look_tight(flow: FlowText, text: Seq<char>)
    requires
        flow.lists.len() > 0,
    ensures
        ({
            let said = flow.opened(Kind::Paragraph, WordText::Nothing).said(WordText::Text(text));
            let loose = said.closed(Kind::Paragraph).closed(Kind::Item);
            loose == flow.said(WordText::Text(text)).closed(Kind::Item)
        }),
{
    let words = flow.said(WordText::Text(text));
    if flow.cell is None && flow.fence == Some(FenceText::Plain) {
        lemma_code_keeps_lists(flow, normalized(text));
    }
    assert(words.lists == flow.lists);
}

proof fn lemma_code_keeps_lists(flow: FlowText, text: Seq<char>)
    ensures
        flow.with_code(text).lists == flow.lists,
    decreases text.len(),
{
    if text.len() > 0 {
        lemma_code_keeps_lists(flow, text.drop_last());
    }
}

/// Emphasis ends where it ends: opening and closing it leaves everything as it
/// was.
pub proof fn emphasis_is_undone(flow: FlowText, kind: Kind)
    requires
        kind is Strong || kind is Emphasis || kind is Strike,
        flow.bold < u32::MAX,
        flow.italic < u32::MAX,
        flow.strike < u32::MAX,
    ensures
        flow.opened(kind, WordText::Nothing).closed(kind) == flow,
{
    assert(flow.opened(kind, WordText::Nothing).closed(kind) =~= flow);
}

/// A quote ends where it ends, too.
pub proof fn quotes_are_undone(flow: FlowText)
    requires
        flow.quotes < u32::MAX,
    ensures
        flow.opened(Kind::Quote, WordText::Nothing).closed(Kind::Quote) == flow,
{
    assert(flow.opened(Kind::Quote, WordText::Nothing).closed(Kind::Quote) =~= flow);
}

} // verus!
