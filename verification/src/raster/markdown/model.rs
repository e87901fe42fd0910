//! What a markdown document lowers to: blocks that are stacked one below the
//! other, found by walking the events of the document.
//!
//! Headings are bold at a size for their level, with a blank line before and
//! after. Paragraphs are body text with a blank line after. List items are
//! indented by a step for each level and carry a bullet or their number; a task
//! marker takes the place of either. Quotes are indented by a step for each level
//! and set in italics. Code keeps its lines, at a smaller size. Bold and italic
//! do not compose: a heading wins over bold, bold over italic. Blank lines at the
//! start and the end of a run of text are left out, since everything that is not
//! text carries its own margins.

use crate::raster::faces::FontStyle;
use crate::raster::rich::{Style, BODY_SIZE};
use vstd::prelude::*;
#[allow(unused_imports)]
use crate::raster::markdown::events::{Kind, Mark, WordText};
#[allow(unused_imports)]
use crate::raster::markdown::tables::table_lines;
#[allow(unused_imports)]
use crate::raster::rich::{LineText, SpanText};
#[allow(unused_imports)]
use crate::raster::text::{normalized, plain_line};
#[allow(unused_imports)]
use crate::strings::{decimal_digits, is_white, skip_white, small_letters, trimmed};

verus! {

/// Code block text size: 20 px in 64ths.
pub const CODE_SIZE: u32 = 1280;

/// Font size of first-level headings: 36 px in 64ths.
pub const H1_SIZE: u32 = 2304;

/// Font size of second-level headings: 30 px in 64ths.
pub const H2_SIZE: u32 = 1920;

/// Font size of all other headings: 26 px in 64ths.
pub const H3_SIZE: u32 = 1664;

/// Indent per list-nesting or blockquote level, in pixels.
pub const INDENT_STEP: u32 = 24;

/// Extra indent for code blocks, in pixels.
pub const CODE_INDENT: u32 = 16;

/// What a fenced code block is drawn as.
#[verifier::ext_equal]
pub enum FenceText {
    /// Lines of code.
    Plain,
    Qr,
    Barcode,
    /// A band of the named pattern.
    Wagara(Seq<char>),
}

/// A vertically-stacked unit of lowered markdown.
#[verifier::ext_equal]
pub enum BlockText {
    Lines(Seq<LineText>),
    Rule,
    Tear,
    Qr(Seq<char>),
    Barcode(Seq<char>),
    /// The name of a pattern and its options.
    Wagara(Seq<char>, Seq<char>),
    /// The image that was resolved at this place of the list.
    Image(int),
}

/// How far a document has been lowered.
#[verifier::ext_equal]
pub struct FlowText {
    pub blocks: Seq<BlockText>,
    /// Lines of the block being accumulated.
    pub lines: Seq<LineText>,
    /// The line being built.
    pub current: LineText,
    pub bold: u32,
    pub italic: u32,
    pub strike: u32,
    pub quotes: u32,
    /// The font size inside a heading.
    pub heading: Option<u32>,
    /// One entry per open list: the next number, for numbered ones.
    pub lists: Seq<Option<u64>>,
    /// The open code block.
    pub fence: Option<FenceText>,
    /// The code line being built, or the body of a fence.
    pub body: Seq<char>,
    /// Image nesting depth.
    pub images: u32,
    pub target: Seq<char>,
    pub alt: Seq<char>,
    /// The finished rows of the open table.
    pub rows: Seq<Seq<Seq<char>>>,
    /// The finished cells of the open row.
    pub row: Seq<Seq<char>>,
    /// The open cell.
    pub cell: Option<Seq<char>>,
}

/// A line without spans.
pub open spec fn empty_line(indent: u32) -> LineText {
    LineText { spans: Seq::empty(), indent }
}

/// A document of which nothing has been lowered.
pub open spec fn flow_start() -> FlowText {
    FlowText {
        blocks: Seq::empty(),
        lines: Seq::empty(),
        current: empty_line(0),
        bold: 0,
        italic: 0,
        strike: 0,
        quotes: 0,
        heading: None,
        lists: Seq::empty(),
        fence: None,
        body: Seq::empty(),
        images: 0,
        target: Seq::empty(),
        alt: Seq::empty(),
        rows: Seq::empty(),
        row: Seq::empty(),
        cell: None,
    }
}

/// One level deeper.
pub open spec fn deeper(n: u32) -> u32 {
    if n < u32::MAX {
        (n + 1) as u32
    } else {
        n
    }
}

/// One level back.
pub open spec fn back(n: u32) -> u32 {
    if n > 0 {
        (n - 1) as u32
    } else {
        0
    }
}

/// An indent of some pixels, as far as there are any.
pub open spec fn indent_px(px: int) -> u32 {
    if px <= u32::MAX {
        px as u32
    } else {
        u32::MAX
    }
}

/// Code text.
pub open spec fn code_style() -> Style {
    Style { font: FontStyle::Regular, size: CODE_SIZE, strike: false }
}

/// The font size of a heading.
pub open spec fn heading_size(level: u8) -> u32 {
    if level == 1 {
        H1_SIZE
    } else if level == 2 {
        H2_SIZE
    } else {
        H3_SIZE
    }
}

/// The text up to the first white space.
pub open spec fn first_token(text: Seq<char>) -> Seq<char>
    decreases text.len(),
{
    if text.len() == 0 || is_white(text[0]) {
        Seq::empty()
    } else {
        seq![text[0]] + first_token(text.skip(1))
    }
}

/// What the words behind a fence make of it: the first one decides, the second
/// one names a pattern.
pub open spec fn fence_kind(info: Seq<char>) -> FenceText {
    let text = skip_white(info);
    let first = first_token(text);
    let word = small_letters(first);
    if word == "qr"@ {
        FenceText::Qr
    } else if word == "barcode"@ {
        FenceText::Barcode
    } else if word == "wagara"@ {
        FenceText::Wagara(first_token(skip_white(text.skip(first.len() as int))))
    } else {
        FenceText::Plain
    }
}

/// What is printed for an image that was not resolved.
pub open spec fn placeholder(alt: Seq<char>, target: Seq<char>) -> Seq<char> {
    "[image: "@ + (if alt.len() > 0 {
        alt
    } else if target.len() > 0 {
        target
    } else {
        "?"@
    }) + "]"@
}

/// Whether the source of a thematic break has white space inside.
pub open spec fn has_gaps(source: Seq<char>) -> bool {
    exists|i: int| 0 <= i < trimmed(source).len() && is_white(#[trigger] trimmed(source)[i])
}

/// Lines without the blank ones at their end.
pub open spec fn without_blanks(lines: Seq<LineText>) -> Seq<LineText>
    decreases lines.len(),
{
    if lines.len() > 0 && lines.last().spans.len() == 0 {
        without_blanks(lines.drop_last())
    } else {
        lines
    }
}

/// Some lines of code text.
pub open spec fn code_lines(texts: Seq<Seq<char>>, indent: u32) -> Seq<LineText> {
    Seq::new(texts.len(), |i: int| plain_line(texts[i], code_style(), indent))
}

/// The place of a name in a list.
pub open spec fn place_of(names: Seq<Seq<char>>, name: Seq<char>, i: int) -> Option<int>
    decreases names.len() - i,
{
    if i >= names.len() {
        None
    } else if names[i] == name {
        Some(i)
    } else {
        place_of(names, name, i + 1)
    }
}

impl FlowText {
    /// The font size of inline text.
    pub open spec fn size(self) -> u32 {
        match self.heading {
            Some(size) => size,
            None => BODY_SIZE,
        }
    }

    /// The style of inline text: a heading wins over bold, bold over italic.
    pub open spec fn style(self) -> Style {
        let font = if self.heading is Some || self.bold > 0 {
            FontStyle::Bold
        } else if self.italic > 0 || self.quotes > 0 {
            FontStyle::Italic
        } else {
            FontStyle::Regular
        };
        Style { font, size: self.size(), strike: self.strike > 0 }
    }

    /// Indent from enclosing blockquotes alone.
    pub open spec fn quote_indent(self) -> u32 {
        indent_px(INDENT_STEP * self.quotes)
    }

    /// With text at the end of the line being built.
    pub open spec fn with_text(self, text: Seq<char>, style: Style) -> FlowText {
        let span = SpanText { text: normalized(text), style };
        FlowText {
            current: LineText { spans: self.current.spans.push(span), indent: self.current.indent },
            ..self
        }
    }

    /// With this indent on the line being built.
    pub open spec fn with_indent(self, indent: u32) -> FlowText {
        FlowText { current: LineText { spans: self.current.spans, indent }, ..self }
    }

    /// With the line being built finished, if there is anything on it.
    pub open spec fn line_ended(self) -> FlowText {
        if self.current.spans.len() > 0 {
            FlowText {
                lines: self.lines.push(self.current),
                current: empty_line(self.current.indent),
                ..self
            }
        } else {
            self
        }
    }

    /// With a blank line to keep apart what comes next, unless there is nothing
    /// above or a blank line already.
    pub open spec fn spaced(self) -> FlowText {
        if self.lines.len() > 0 && self.lines.last().spans.len() > 0 {
            FlowText { lines: self.lines.push(empty_line(0)), ..self }
        } else {
            self
        }
    }

    /// With the block of lines finished, if there is any line in it.
    pub open spec fn block_ended(self) -> FlowText {
        let ended = self.line_ended();
        let lines = without_blanks(ended.lines);
        if lines.len() > 0 {
            FlowText { blocks: ended.blocks.push(BlockText::Lines(lines)), lines: Seq::empty(), ..ended }
        } else {
            FlowText { lines, ..ended }
        }
    }

    /// With a block of its own behind the text.
    pub open spec fn with_block(self, block: BlockText) -> FlowText {
        let ended = self.block_ended();
        FlowText { blocks: ended.blocks.push(block), ..ended }
    }

    /// With the code line finished.
    pub open spec fn code_line_ended(self) -> FlowText {
        FlowText {
            lines: self.lines.push(plain_line(self.body, code_style(), self.current.indent)),
            body: Seq::empty(),
            ..self
        }
    }

    /// With code behind the code there is, one line for each line of it.
    pub open spec fn with_code(self, text: Seq<char>) -> FlowText
        decreases text.len(),
    {
        if text.len() == 0 {
            self
        } else {
            let before = self.with_code(text.drop_last());
            if text.last() == '\n' {
                before.code_line_ended()
            } else {
                FlowText { body: before.body.push(text.last()), ..before }
            }
        }
    }

    /// With text behind that of the open cell.
    pub open spec fn with_cell(self, text: Seq<char>) -> FlowText {
        match self.cell {
            Some(cell) => FlowText { cell: Some(cell + text), ..self },
            None => self,
        }
    }

    /// What a list item starts with.
    pub open spec fn prefix(self) -> Seq<char> {
        if self.lists.len() > 0 && self.lists.last() is Some {
            decimal_digits(self.lists.last()->Some_0 as nat) + ". "@
        } else {
            "• "@
        }
    }

    /// With the next number for the innermost list.
    pub open spec fn counted(self) -> FlowText {
        if self.lists.len() > 0 && self.lists.last() is Some {
            let n = self.lists.last()->Some_0;
            let next = if n < u64::MAX {
                (n + 1) as u64
            } else {
                n
            };
            FlowText { lists: self.lists.drop_last().push(Some(next)), ..self }
        } else {
            self
        }
    }

    /// What an opening element does.
    pub open spec fn opened(self, kind: Kind, word: WordText) -> FlowText {
        match kind {
            Kind::Heading(level) => {
                let apart = self.line_ended().spaced();
                FlowText { heading: Some(heading_size(level)), ..apart }.with_indent(
                    self.quote_indent(),
                )
            },
            Kind::Paragraph => if self.lists.len() == 0 {
                self.with_indent(self.quote_indent())
            } else {
                self
            },
            Kind::Quote => FlowText { quotes: deeper(self.quotes), ..self },
            Kind::List => FlowText {
                lists: self.lists.push(
                    match word {
                        WordText::First(first) => first,
                        _ => None,
                    },
                ),
                ..self
            },
            Kind::Item => self.line_ended().with_indent(
                indent_px(INDENT_STEP * self.quotes + INDENT_STEP * self.lists.len()),
            ).with_text(self.prefix(), self.style()).counted(),
            Kind::CodeBlock => {
                let fence = match word {
                    WordText::Info(info) => fence_kind(info),
                    _ => FenceText::Plain,
                };
                FlowText { fence: Some(fence), body: Seq::empty(), ..self.line_ended() }.with_indent(
                    indent_px(INDENT_STEP * self.quotes + CODE_INDENT),
                )
            },
            Kind::Strong => FlowText { bold: deeper(self.bold), ..self },
            Kind::Emphasis => FlowText { italic: deeper(self.italic), ..self },
            Kind::Strike => FlowText { strike: deeper(self.strike), ..self },
            Kind::Image => FlowText {
                images: 1,
                alt: Seq::empty(),
                target: match word {
                    WordText::Target(target) => target,
                    _ => Seq::empty(),
                },
                ..self
            },
            Kind::Table => FlowText { rows: Seq::empty(), ..self.line_ended() },
            Kind::TableHead | Kind::TableRow => FlowText { row: Seq::empty(), ..self },
            Kind::TableCell => FlowText { cell: Some(Seq::empty()), ..self },
            Kind::Other => self,
        }
    }

    /// With the open code block finished: plain code ends its last line, a fence
    /// becomes a block of its own.
    pub open spec fn code_ended(self) -> FlowText {
        let data = trimmed(self.body);
        let done = match self.fence {
            Some(FenceText::Qr) => self.with_block(BlockText::Qr(data)),
            Some(FenceText::Barcode) => self.with_block(BlockText::Barcode(data)),
            Some(FenceText::Wagara(pattern)) => self.with_block(BlockText::Wagara(pattern, data)),
            _ => if self.body.len() > 0 {
                self.code_line_ended()
            } else {
                self
            },
        };
        FlowText { fence: None, body: Seq::empty(), ..done }.with_indent(0).spaced()
    }

    /// What a closing element does.
    pub open spec fn closed(self, kind: Kind) -> FlowText {
        match kind {
            Kind::Heading(_) => FlowText {
                heading: None,
                ..self.line_ended().spaced()
            }.with_indent(0),
            Kind::Paragraph => if self.lists.len() == 0 {
                self.line_ended().spaced().with_indent(0)
            } else {
                self.line_ended()
            },
            Kind::Quote => FlowText { quotes: back(self.quotes), ..self },
            Kind::List => {
                let left = if self.lists.len() > 0 {
                    self.lists.drop_last()
                } else {
                    self.lists
                };
                let out = FlowText { lists: left, ..self };
                if left.len() == 0 {
                    out.spaced().with_indent(0)
                } else {
                    out
                }
            },
            Kind::Item => self.line_ended(),
            Kind::CodeBlock => self.code_ended(),
            Kind::Strong => FlowText { bold: back(self.bold), ..self },
            Kind::Emphasis => FlowText { italic: back(self.italic), ..self },
            Kind::Strike => FlowText { strike: back(self.strike), ..self },
            Kind::TableCell => match self.cell {
                Some(cell) => FlowText { row: self.row.push(cell), cell: None, ..self },
                None => self,
            },
            Kind::TableHead | Kind::TableRow => FlowText {
                rows: self.rows.push(self.row),
                row: Seq::empty(),
                ..self
            },
            Kind::Table => FlowText {
                lines: self.lines + code_lines(table_lines(self.rows), 0),
                rows: Seq::empty(),
                ..self
            }.spaced(),
            Kind::Image | Kind::Other => self,
        }
    }

    /// What text and the like do.
    pub open spec fn said(self, word: WordText) -> FlowText {
        match word {
            WordText::Text(text) => if self.cell is Some {
                self.with_cell(normalized(text))
            } else {
                match self.fence {
                    None => self.with_text(text, self.style()),
                    Some(FenceText::Plain) => self.with_code(normalized(text)),
                    Some(_) => FlowText { body: self.body + normalized(text), ..self },
                }
            },
            WordText::Code(text) => if self.cell is Some {
                self.with_cell(normalized(text))
            } else {
                self.with_text(text, self.style())
            },
            WordText::SoftBreak => if self.cell is Some {
                self.with_cell(seq![' '])
            } else {
                self.with_text(" "@, self.style())
            },
            WordText::HardBreak => if self.cell is Some {
                self.with_cell(seq![' '])
            } else {
                self.line_ended()
            },
            WordText::Rule(source) => self.with_block(
                if has_gaps(source) {
                    BlockText::Tear
                } else {
                    BlockText::Rule
                },
            ),
            WordText::Task(done) => FlowText {
                current: empty_line(self.current.indent),
                ..self
            }.with_text(
                if done {
                    "[x] "@
                } else {
                    "[ ] "@
                },
                self.style(),
            ),
            _ => self,
        }
    }

    /// With the image finished: one that was resolved becomes a block of its own,
    /// any other a placeholder, and so does every image in a table cell.
    pub open spec fn image_ended(self, names: Seq<Seq<char>>) -> FlowText {
        let out = FlowText { images: 0, ..self };
        let label = placeholder(self.alt, self.target);
        if self.cell is Some {
            out.with_cell(label)
        } else {
            match place_of(names, self.target, 0) {
                Some(i) => out.with_block(BlockText::Image(i)),
                None => out.line_ended().with_text(
                    label,
                    Style { font: FontStyle::Italic, size: self.size(), strike: self.strike > 0 },
                ).line_ended(),
            }
        }
    }

    /// What an event inside an image does: its text becomes the alternative text.
    pub open spec fn in_image(self, mark: Mark, word: WordText, names: Seq<Seq<char>>) -> FlowText {
        match mark {
            Some((true, Kind::Image)) => FlowText { images: deeper(self.images), ..self },
            Some((false, Kind::Image)) => if self.images == 1 {
                self.image_ended(names)
            } else {
                FlowText { images: back(self.images), ..self }
            },
            Some(_) => self,
            None => match word {
                WordText::Text(text) | WordText::Code(text) => FlowText {
                    alt: self.alt + normalized(text),
                    ..self
                },
                WordText::SoftBreak | WordText::HardBreak => FlowText {
                    alt: self.alt.push(' '),
                    ..self
                },
                _ => self,
            },
        }
    }

    /// What one event does.
    pub open spec fn after(self, mark: Mark, word: WordText, names: Seq<Seq<char>>) -> FlowText {
        if self.images > 0 {
            self.in_image(mark, word, names)
        } else {
            match mark {
                Some((true, kind)) => self.opened(kind, word),
                Some((false, kind)) => self.closed(kind),
                None => self.said(word),
            }
        }
    }
}

/// Whether every image among some blocks is one of the resolved ones.
pub open spec fn images_resolved(blocks: Seq<BlockText>, names: Seq<Seq<char>>) -> bool {
    forall|k: int|
        0 <= k < blocks.len() ==> (#[trigger] blocks[k] matches BlockText::Image(i) ==> 0 <= i
            < names.len())
}

proof fn lemma_place(names: Seq<Seq<char>>, name: Seq<char>, i: int)
    requires
        0 <= i,
    ensures
        place_of(names, name, i) matches Some(k) ==> 0 <= k < names.len() && names[k] == name,
    decreases names.len() - i,
{
    if i < names.len() && names[i] != name {
        lemma_place(names, name, i + 1);
    }
}

proof fn lemma_code_keeps_blocks(flow: FlowText, text: Seq<char>)
    ensures
        flow.with_code(text).blocks == flow.blocks,
    decreases text.len(),
{
    if text.len() > 0 {
        lemma_code_keeps_blocks(flow, text.drop_last());
    }
}

proof fn lemma_event_keeps_images(
    flow: FlowText,
    mark: Mark,
    word: WordText,
    names: Seq<Seq<char>>,
)
    requires
        images_resolved(flow.blocks, names),
    ensures
        images_resolved(flow.after(mark, word, names).blocks, names),
{
    lemma_place(names, flow.target, 0);
    if let WordText::Text(text) = word {
        lemma_code_keeps_blocks(flow, normalized(text));
    }
}

/// Every image block of a document shows an image that was resolved.
pub proof fn image_blocks_are_resolved(
    marks: Seq<Mark>,
    words: Seq<WordText>,
    names: Seq<Seq<char>>,
)
    ensures
        images_resolved(blocks_of(marks, words, names), names),
{
    lemma_flow_keeps_images(marks, words, names, marks.len() as int);
}

proof fn lemma_flow_keeps_images(
    marks: Seq<Mark>,
    words: Seq<WordText>,
    names: Seq<Seq<char>>,
    n: int,
)
    ensures
        images_resolved(flow_after(marks, words, names, n).blocks, names),
    decreases n,
{
    if n > 0 {
        lemma_flow_keeps_images(marks, words, names, n - 1);
        lemma_event_keeps_images(
            flow_after(marks, words, names, n - 1),
            marks[n - 1],
            words[n - 1],
            names,
        );
    }
}

/// How far a document is lowered after its first `n` events.
pub open spec fn flow_after(
    marks: Seq<Mark>,
    words: Seq<WordText>,
    names: Seq<Seq<char>>,
    n: int,
) -> FlowText
    decreases n,
{
    if n <= 0 {
        flow_start()
    } else {
        flow_after(marks, words, names, n - 1).after(marks[n - 1], words[n - 1], names)
    }
}

/// The blocks of a document.
pub open spec fn blocks_of(
    marks: Seq<Mark>,
    words: Seq<WordText>,
    names: Seq<Seq<char>>,
) -> Seq<BlockText> {
    flow_after(marks, words, names, marks.len() as int).block_ended().blocks
}

} // verus!
