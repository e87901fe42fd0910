//! Walking the events of a document and collecting its blocks.

use crate::raster::faces::FontStyle;
use crate::raster::markdown::events::{Kind, Mark, Word};
use crate::raster::markdown::model::{
    CODE_INDENT, CODE_SIZE, H1_SIZE, H2_SIZE, H3_SIZE, INDENT_STEP,
};
use crate::raster::markdown::tables::lay_out;
use crate::raster::rich::{RichLine, Span, Style, BODY_SIZE};
use crate::raster::text::{make_line, normalize};
use crate::strings::{chars_of, decimal, is_white_char, same_text, text_of, to_small_letters, trim_chars};
use vstd::prelude::*;
#[allow(unused_imports)]
use crate::cli::texts;
#[allow(unused_imports)]
use crate::raster::markdown::events::{word_texts, WordText};
#[allow(unused_imports)]
use crate::raster::markdown::model::{
    back, blocks_of, code_lines, code_style, deeper, empty_line, fence_kind, first_token,
    flow_after, flow_start, has_gaps, heading_size, indent_px, place_of, placeholder,
    without_blanks, BlockText, FenceText, FlowText,
};
#[allow(unused_imports)]
use crate::raster::markdown::tables::{cells_text, table_lines};
#[allow(unused_imports)]
use crate::raster::rich::{line_texts, span_texts, LineText, SpanText};
#[allow(unused_imports)]
use crate::raster::text::{normalized, plain_line};
#[allow(unused_imports)]
use crate::strings::{char_lists, decimal_digits, is_white, skip_white, small_letters, trimmed};

verus! {

/// A vertically-stacked unit of lowered markdown.
#[derive(Debug)]
pub enum MdBlock {
    Lines(Vec<RichLine>),
    Rule,
    Tear,
    Qr(String),
    Barcode(String),
    /// The name of a pattern and its options.
    Wagara(String, String),
    /// The image at this place of the resolved ones.
    Image(usize),
}

impl View for MdBlock {
    type V = BlockText;

    open spec fn view(&self) -> BlockText {
        match *self {
            MdBlock::Lines(lines) => BlockText::Lines(line_texts(lines@)),
            MdBlock::Rule => BlockText::Rule,
            MdBlock::Tear => BlockText::Tear,
            MdBlock::Qr(data) => BlockText::Qr(data@),
            MdBlock::Barcode(data) => BlockText::Barcode(data@),
            MdBlock::Wagara(pattern, body) => BlockText::Wagara(pattern@, body@),
            MdBlock::Image(i) => BlockText::Image(i as int),
        }
    }
}

/// The blocks of a list, with their text as sequences.
pub open spec fn block_texts(blocks: Seq<MdBlock>) -> Seq<BlockText> {
    Seq::new(blocks.len(), |i: int| blocks[i]@)
}

/// What a fenced code block is drawn as.
#[derive(Debug)]
enum Fence {
    Plain,
    Qr,
    Barcode,
    Wagara(String),
}

impl View for Fence {
    type V = FenceText;

    closed spec fn view(&self) -> FenceText {
        match *self {
            Fence::Plain => FenceText::Plain,
            Fence::Qr => FenceText::Qr,
            Fence::Barcode => FenceText::Barcode,
            Fence::Wagara(pattern) => FenceText::Wagara(pattern@),
        }
    }
}

/// Event-stream lowering state.
#[derive(Debug)]
struct Lowering {
    blocks: Vec<MdBlock>,
    lines: Vec<RichLine>,
    current: RichLine,
    bold: u32,
    italic: u32,
    strike: u32,
    quotes: u32,
    heading: Option<u32>,
    lists: Vec<Option<u64>>,
    fence: Option<Fence>,
    body: Vec<char>,
    images: u32,
    target: String,
    alt: Vec<char>,
    rows: Vec<Vec<Vec<char>>>,
    row: Vec<Vec<char>>,
    cell: Option<Vec<char>>,
}

impl View for Lowering {
    type V = FlowText;

    closed spec fn view(&self) -> FlowText {
        FlowText {
            blocks: block_texts(self.blocks@),
            lines: line_texts(self.lines@),
            current: self.current@,
            bold: self.bold,
            italic: self.italic,
            strike: self.strike,
            quotes: self.quotes,
            heading: self.heading,
            lists: self.lists@,
            fence: match self.fence {
                Some(fence) => Some(fence@),
                None => None,
            },
            body: self.body@,
            images: self.images,
            target: self.target@,
            alt: self.alt@,
            rows: cells_text(self.rows@),
            row: char_lists(self.row@),
            cell: match self.cell {
                Some(cell) => Some(cell@),
                None => None,
            },
        }
    }
}

/// One level deeper.
fn go_deeper(n: u32) -> (r: u32)
    ensures
        r == deeper(n),
{
    if n < u32::MAX {
        n + 1
    } else {
        n
    }
}

/// One level back.
fn go_back(n: u32) -> (r: u32)
    ensures
        r == back(n),
{
    if n > 0 {
        n - 1
    } else {
        0
    }
}

/// An indent for so many levels and so many pixels more.
fn indent_for(levels: u128, more: u32) -> (r: u32)
    requires
        levels <= 0x2_0000_0000_0000_0000,
    ensures
        r == indent_px(INDENT_STEP * levels + more),
{
    let px: u128 = INDENT_STEP as u128 * levels + more as u128;
    if px <= 0xFFFF_FFFF {
        px as u32
    } else {
        u32::MAX
    }
}

/// Appends characters.
fn append_chars(out: &mut Vec<char>, text: &Vec<char>)
    ensures
        final(out)@ == old(out)@ + text@,
{
    let mut i: usize = 0;
    assert(out@ =~= out@ + text@.take(0));
    while i < text.len()
        invariant
            i <= text@.len(),
            out@ == old(out)@ + text@.take(i as int),
        decreases text@.len() - i,
    {
        out.push(text[i]);
        i = i + 1;
        assert(out@ =~= old(out)@ + text@.take(i as int));
    }
    assert(text@.take(i as int) =~= text@);
}

/// The place of the first character from `from` on that is no white space.
fn skip_to_token(text: &Vec<char>, from: usize) -> (at: usize)
    requires
        from <= text@.len(),
    ensures
        from <= at <= text@.len(),
        text@.skip(at as int) == skip_white(text@.skip(from as int)),
{
    let mut at: usize = from;
    while at < text.len() && is_white_char(text[at])
        invariant
            from <= at <= text@.len(),
            skip_white(text@.skip(at as int)) == skip_white(text@.skip(from as int)),
        decreases text@.len() - at,
    {
        assert(text@.skip(at as int).skip(1) =~= text@.skip(at + 1));
        at = at + 1;
    }
    at
}

/// The text from `from` on up to the first white space.
fn take_token(text: &Vec<char>, from: usize) -> (token: Vec<char>)
    requires
        from <= text@.len(),
    ensures
        token@ == first_token(text@.skip(from as int)),
        from + token@.len() <= text@.len(),
{
    let mut token: Vec<char> = Vec::new();
    let mut at: usize = from;
    assert(token@ + first_token(text@.skip(at as int)) =~= first_token(text@.skip(from as int)));
    while at < text.len() && !is_white_char(text[at])
        invariant
            from <= at <= text@.len(),
            token@.len() == at - from,
            token@ + first_token(text@.skip(at as int)) == first_token(text@.skip(from as int)),
        decreases text@.len() - at,
    {
        let ghost before = token@;
        token.push(text[at]);
        proof {
            let rest = text@.skip(at as int);
            assert(rest.skip(1) =~= text@.skip(at + 1));
            assert(first_token(rest) =~= seq![rest[0]] + first_token(rest.skip(1)));
            assert(token@ + first_token(rest.skip(1)) =~= before + first_token(rest));
        }
        at = at + 1;
    }
    assert(first_token(text@.skip(at as int)) =~= Seq::empty());
    assert(token@ + Seq::<char>::empty() =~= token@);
    token
}

/// What the words behind a fence make of it.
fn find_fence(info: &str) -> (fence: Fence)
    ensures
        fence@ == fence_kind(info@),
{
    let text: Vec<char> = chars_of(info);
    let start: usize = skip_to_token(&text, 0);
    assert(text@.skip(0) =~= text@);
    let first: Vec<char> = take_token(&text, start);
    let word: String = to_small_letters(text_of(first.as_slice()).as_str());
    if same_text(word.as_str(), "qr") {
        Fence::Qr
    } else if same_text(word.as_str(), "barcode") {
        Fence::Barcode
    } else if same_text(word.as_str(), "wagara") {
        let behind: usize = start + first.len();
        assert(text@.skip(behind as int) =~= text@.skip(start as int).skip(
            first@.len() as int,
        ));
        let at: usize = skip_to_token(&text, behind);
        let pattern: Vec<char> = take_token(&text, at);
        Fence::Wagara(text_of(pattern.as_slice()))
    } else {
        Fence::Plain
    }
}

/// What is printed for an image that was not resolved.
fn make_placeholder(alt: &Vec<char>, target: &str) -> (label: String)
    ensures
        label@ == placeholder(alt@, target@),
{
    let mut label: String = "[image: ".to_owned();
    if alt.len() > 0 {
        label.append(text_of(alt.as_slice()).as_str());
    } else if chars_of(target).len() > 0 {
        label.append(target);
    } else {
        label.append("?");
    }
    label.append("]");
    label
}

/// Whether the source of a thematic break has white space inside.
fn is_gappy(source: &str) -> (gaps: bool)
    ensures
        gaps == has_gaps(source@),
{
    let text: Vec<char> = trim_chars(chars_of(source).as_slice());
    let mut i: usize = 0;
    while i < text.len()
        invariant
            i <= text@.len(),
            text@ == trimmed(source@),
            forall|k: int| 0 <= k < i ==> !is_white(#[trigger] text@[k]),
        decreases text@.len() - i,
    {
        if is_white_char(text[i]) {
            assert(is_white(trimmed(source@)[i as int]));
            return true;
        }
        i = i + 1;
    }
    false
}

/// The place of a name in a list.
fn find_name(names: &Vec<String>, name: &str) -> (place: Option<usize>)
    ensures
        match place {
            Some(i) => place_of(texts(names@), name@, 0) == Some(i as int),
            None => place_of(texts(names@), name@, 0) is None,
        },
        place matches Some(i) ==> i < names@.len(),
{
    let mut i: usize = 0;
    while i < names.len()
        invariant
            i <= names@.len(),
            place_of(texts(names@), name@, 0) == place_of(texts(names@), name@, i as int),
        decreases names@.len() - i,
    {
        assert(texts(names@)[i as int] == names@[i as int]@);
        if same_text(names[i].as_str(), name) {
            return Some(i);
        }
        i = i + 1;
    }
    None
}

impl Lowering {
    /// Nothing lowered yet.
    fn new() -> (st: Lowering)
        ensures
            st@ == flow_start(),
    {
        let st: Lowering = Lowering {
            blocks: Vec::new(),
            lines: Vec::new(),
            current: RichLine::default(),
            bold: 0,
            italic: 0,
            strike: 0,
            quotes: 0,
            heading: None,
            lists: Vec::new(),
            fence: None,
            body: Vec::new(),
            images: 0,
            target: String::new(),
            alt: Vec::new(),
            rows: Vec::new(),
            row: Vec::new(),
            cell: None,
        };
        assert(st@ =~= flow_start());
        st
    }

    /// The font size of inline text.
    fn size(&self) -> (size: u32)
        ensures
            size == self@.size(),
    {
        match self.heading {
            Some(size) => size,
            None => BODY_SIZE,
        }
    }

    /// The style for inline text under the current nesting.
    fn style(&self) -> (style: Style)
        ensures
            style == self@.style(),
    {
        let font: FontStyle = if self.heading.is_some() || self.bold > 0 {
            FontStyle::Bold
        } else if self.italic > 0 || self.quotes > 0 {
            FontStyle::Italic
        } else {
            FontStyle::Regular
        };
        Style { font, size: self.size(), strike: self.strike > 0 }
    }

    fn push_span(&mut self, text: &str, style: Style)
        ensures
            final(self)@ == old(self)@.with_text(text@, style),
    {
        let normal: Vec<char> = normalize(text);
        let span: Span = Span { text: text_of(normal.as_slice()), style };
        let ghost model = span@;
        let ghost before = self.current.spans@;
        self.current.spans.push(span);
        assert(span_texts(self.current.spans@) =~= span_texts(before).push(model));
        assert(self@ =~= old(self)@.with_text(text@, style));
    }

    fn set_indent(&mut self, indent: u32)
        ensures
            final(self)@ == old(self)@.with_indent(indent),
    {
        self.current.indent = indent;
        assert(self@ =~= old(self)@.with_indent(indent));
    }

    /// Push `current` into `lines` if it has content; keep its indent.
    fn flush_line(&mut self)
        ensures
            final(self)@ == old(self)@.line_ended(),
    {
        if self.current.spans.len() > 0 {
            let mut line: RichLine = RichLine { spans: Vec::new(), indent: self.current.indent };
            std::mem::swap(&mut self.current, &mut line);
            let ghost before = self.lines@;
            let ghost model = line@;
            self.lines.push(line);
            assert(line_texts(self.lines@) =~= line_texts(before).push(model));
            assert(self.current@.spans =~= Seq::empty());
            assert(self@ =~= old(self)@.line_ended());
        }
    }

    /// Blank separator line; skipped when there is nothing above to separate
    /// from (block start) or the previous line is already blank.
    fn push_blank(&mut self)
        ensures
            final(self)@ == old(self)@.spaced(),
    {
        let n: usize = self.lines.len();
        if n > 0 && self.lines[n - 1].spans.len() > 0 {
            let ghost before = self.lines@;
            self.lines.push(RichLine::default());
            assert(line_texts(self.lines@) =~= line_texts(before).push(empty_line(0)));
            assert(self@ =~= old(self)@.spaced());
        }
    }

    /// Close the accumulating block of lines, if non-empty.
    fn flush_block(&mut self)
        ensures
            final(self)@ == old(self)@.block_ended(),
    {
        self.flush_line();
        let ghost ended = self@;
        let mut lines: Vec<RichLine> = Vec::new();
        std::mem::swap(&mut self.lines, &mut lines);
        let ghost all = line_texts(lines@);
        while lines.len() > 0 && lines[lines.len() - 1].spans.len() == 0
            invariant
                without_blanks(line_texts(lines@)) == without_blanks(all),
            decreases lines@.len(),
        {
            let ghost before = lines@;
            lines.pop();
            assert(line_texts(lines@) =~= line_texts(before).drop_last());
        }
        assert(line_texts(lines@) == without_blanks(all));
        if lines.len() > 0 {
            let ghost before = self.blocks@;
            let block: MdBlock = MdBlock::Lines(lines);
            let ghost model = block@;
            self.blocks.push(block);
            assert(block_texts(self.blocks@) =~= block_texts(before).push(model));
        }
        assert(self@ =~= old(self)@.block_ended());
    }

    /// Put a block of its own behind the text.
    fn push_block(&mut self, block: MdBlock)
        ensures
            final(self)@ == old(self)@.with_block(block@),
    {
        self.flush_block();
        let ghost before = self.blocks@;
        let ghost model = block@;
        self.blocks.push(block);
        assert(block_texts(self.blocks@) =~= block_texts(before).push(model));
        assert(self@ =~= old(self)@.with_block(model));
    }

    /// Complete a code line (on `\n` or at the block's end).
    fn flush_code_line(&mut self)
        ensures
            final(self)@ == old(self)@.code_line_ended(),
    {
        let text: String = text_of(self.body.as_slice());
        self.body = Vec::new();
        let line: RichLine = make_line(
            text,
            Style::new(FontStyle::Regular, CODE_SIZE),
            self.current.indent,
        );
        let ghost before = self.lines@;
        let ghost model = line@;
        self.lines.push(line);
        assert(line_texts(self.lines@) =~= line_texts(before).push(model));
        assert(self@ =~= old(self)@.code_line_ended());
    }

    /// Code block text: preserve exact line breaks, one line per line.
    fn push_code_text(&mut self, text: &Vec<char>)
        ensures
            final(self)@ == old(self)@.with_code(text@),
    {
        let mut i: usize = 0;
        assert(text@.take(0) =~= Seq::empty());
        while i < text.len()
            invariant
                i <= text@.len(),
                self@ == old(self)@.with_code(text@.take(i as int)),
            decreases text@.len() - i,
        {
            assert(text@.take(i + 1).drop_last() =~= text@.take(i as int));
            assert(text@.take(i + 1).last() == text@[i as int]);
            let c: char = text[i];
            let ghost before = self@;
            if c == '\n' {
                self.flush_code_line();
            } else {
                self.body.push(c);
                assert(self@ =~= (FlowText { body: before.body.push(c), ..before }));
            }
            i = i + 1;
        }
        assert(text@.take(i as int) =~= text@);
    }

    /// Text inside a table cell.
    fn push_cell_text(&mut self, text: &Vec<char>)
        ensures
            final(self)@ == old(self)@.with_cell(text@),
    {
        let mut cell: Option<Vec<char>> = None;
        std::mem::swap(&mut self.cell, &mut cell);
        match cell {
            Some(mut c) => {
                append_chars(&mut c, text);
                self.cell = Some(c);
            },
            None => {},
        }
        assert(self@ =~= old(self)@.with_cell(text@));
    }

    /// The prefix of a list item; the list goes on to the next number.
    fn push_prefix(&mut self)
        ensures
            final(self)@ == old(self)@.with_text(old(self)@.prefix(), old(self)@.style()).counted(),
    {
        let style: Style = self.style();
        let n: usize = self.lists.len();
        if n > 0 {
            let last: Option<u64> = self.lists[n - 1];
            if let Some(number) = last {
                let mut prefix: String = decimal(number as u128);
                prefix.append(". ");
                self.push_span(prefix.as_str(), style);
                let ghost before = self.lists@;
                let ghost said = self@;
                let next: u64 = if number < u64::MAX {
                    number + 1
                } else {
                    number
                };
                self.lists.set(n - 1, Some(next));
                assert(self.lists@ =~= before.drop_last().push(Some(next)));
                assert(self@ =~= said.counted());
                return ;
            }
        }
        self.push_span("• ", style);
    }

    fn open_heading(&mut self, level: u8)
        ensures
            final(self)@ == old(self)@.opened(Kind::Heading(level), WordText::Nothing),
    {
        let indent: u32 = indent_for(self.quotes as u128, 0);
        self.flush_line();
        self.push_blank();
        let ghost apart = self@;
        let size: u32 = if level == 1 {
            H1_SIZE
        } else if level == 2 {
            H2_SIZE
        } else {
            H3_SIZE
        };
        self.heading = Some(size);
        assert(self@ =~= (FlowText { heading: Some(heading_size(level)), ..apart }));
        self.set_indent(indent);
    }

    fn open_item(&mut self)
        ensures
            final(self)@ == old(self)@.opened(Kind::Item, WordText::Nothing),
    {
        let levels: u128 = self.quotes as u128 + self.lists.len() as u128;
        self.flush_line();
        self.set_indent(indent_for(levels, 0));
        self.push_prefix();
    }

    fn open_code(&mut self, fence: Fence)
        ensures
            final(self)@ == (FlowText {
                fence: Some(fence@),
                body: Seq::empty(),
                ..old(self)@.line_ended()
            }).with_indent(indent_px(INDENT_STEP * old(self)@.quotes + CODE_INDENT)),
    {
        let indent: u32 = indent_for(self.quotes as u128, CODE_INDENT);
        self.flush_line();
        let ghost ended = self@;
        self.fence = Some(fence);
        self.body = Vec::new();
        assert(self@ =~= (FlowText { fence: Some(fence@), body: Seq::empty(), ..ended }));
        self.set_indent(indent);
    }

    fn start(&mut self, kind: Kind, word: &Word)
        ensures
            final(self)@ == old(self)@.opened(kind, word@),
    {
        match kind {
            Kind::Heading(level) => {
                self.open_heading(level);
            },
            Kind::Paragraph => {
                // Inside a list item the paragraph joins the item's line
                // (after the prefix) and keeps the item's indent.
                if self.lists.len() == 0 {
                    self.set_indent(indent_for(self.quotes as u128, 0));
                }
            },
            Kind::Quote => {
                self.quotes = go_deeper(self.quotes);
            },
            Kind::List => {
                let first: Option<u64> = match word {
                    Word::First(first) => *first,
                    _ => None,
                };
                self.lists.push(first);
            },
            Kind::Item => {
                self.open_item();
            },
            Kind::CodeBlock => {
                let fence: Fence = match word {
                    Word::Info(info) => find_fence(info.as_str()),
                    _ => Fence::Plain,
                };
                self.open_code(fence);
            },
            Kind::Strong => {
                self.bold = go_deeper(self.bold);
            },
            Kind::Emphasis => {
                self.italic = go_deeper(self.italic);
            },
            Kind::Strike => {
                self.strike = go_deeper(self.strike);
            },
            Kind::Image => {
                self.images = 1;
                self.alt = Vec::new();
                self.target = match word {
                    Word::Target(target) => target.as_str().to_owned(),
                    _ => String::new(),
                };
            },
            Kind::Table => {
                self.flush_line();
                self.rows = Vec::new();
                assert(cells_text(self.rows@) =~= Seq::empty());
            },
            Kind::TableHead | Kind::TableRow => {
                self.row = Vec::new();
                assert(char_lists(self.row@) =~= Seq::empty());
            },
            Kind::TableCell => {
                self.cell = Some(Vec::new());
            },
            Kind::Other => {},
        }
        assert(self@ =~= old(self)@.opened(kind, word@));
    }

    fn close_code(&mut self)
        ensures
            final(self)@ == old(self)@.code_ended(),
    {
        let mut fence: Option<Fence> = None;
        std::mem::swap(&mut self.fence, &mut fence);
        let ghost data = trimmed(self.body@);
        let ghost open = FlowText { fence: None, ..old(self)@ };
        assert(self@ =~= open);
        match fence {
            Some(Fence::Qr) => {
                let text: String = text_of(trim_chars(self.body.as_slice()).as_slice());
                self.push_block(MdBlock::Qr(text));
                assert(self@ =~= open.with_block(BlockText::Qr(data)));
            },
            Some(Fence::Barcode) => {
                let text: String = text_of(trim_chars(self.body.as_slice()).as_slice());
                self.push_block(MdBlock::Barcode(text));
                assert(self@ =~= open.with_block(BlockText::Barcode(data)));
            },
            Some(Fence::Wagara(pattern)) => {
                let text: String = text_of(trim_chars(self.body.as_slice()).as_slice());
                self.push_block(MdBlock::Wagara(pattern, text));
                assert(self@ =~= open.with_block(BlockText::Wagara(pattern@, data)));
            },
            _ => {
                // A fenced block's text ends in `\n`, leaving an empty buffer;
                // flush any remainder so a missing final newline still prints.
                if self.body.len() > 0 {
                    self.flush_code_line();
                }
            },
        }
        self.body = Vec::new();
        self.set_indent(0);
        self.push_blank();
        assert(self@ =~= old(self)@.code_ended());
    }

    fn close_table(&mut self)
        ensures
            final(self)@ == old(self)@.closed(Kind::Table),
    {
        let texts: Vec<Vec<char>> = lay_out(&self.rows);
        let ghost shown = code_lines(table_lines(cells_text(self.rows@)), 0);
        self.rows = Vec::new();
        let ghost start = line_texts(self.lines@);
        let ghost others = *self;
        let mut i: usize = 0;
        assert(line_texts(self.lines@) =~= start + shown.take(0));
        while i < texts.len()
            invariant
                i <= texts@.len(),
                char_lists(texts@) == table_lines(cells_text(old(self).rows@)),
                shown == code_lines(table_lines(cells_text(old(self).rows@)), 0),
                line_texts(self.lines@) == start + shown.take(i as int),
                *self == (Lowering { lines: self.lines, ..others }),
            decreases texts@.len() - i,
        {
            let line: RichLine = make_line(
                text_of(texts[i].as_slice()),
                Style::new(FontStyle::Regular, CODE_SIZE),
                0,
            );
            let ghost before = self.lines@;
            let ghost model = line@;
            self.lines.push(line);
            proof {
                assert(line_texts(self.lines@) =~= line_texts(before).push(model));
                assert(char_lists(texts@)[i as int] == texts@[i as int]@);
                assert(shown[i as int] == model);
                assert(line_texts(self.lines@) =~= start + shown.take(i + 1));
            }
            i = i + 1;
        }
        proof {
            assert(shown.take(i as int) =~= shown);
            assert(cells_text(self.rows@) =~= Seq::empty());
            assert(self@ =~= (FlowText {
                lines: old(self)@.lines + shown,
                rows: Seq::empty(),
                ..old(self)@
            }));
        }
        self.push_blank();
    }

    fn end(&mut self, kind: Kind)
        ensures
            final(self)@ == old(self)@.closed(kind),
    {
        match kind {
            Kind::Heading(_) => {
                self.flush_line();
                self.push_blank();
                self.heading = None;
                self.set_indent(0);
            },
            Kind::Paragraph => {
                self.flush_line();
                if self.lists.len() == 0 {
                    self.push_blank();
                    self.set_indent(0);
                }
            },
            Kind::Quote => {
                self.quotes = go_back(self.quotes);
            },
            Kind::List => {
                let ghost before = self.lists@;
                if self.lists.len() > 0 {
                    self.lists.pop();
                    assert(self.lists@ =~= before.drop_last());
                }
                if self.lists.len() == 0 {
                    self.push_blank();
                    self.set_indent(0);
                }
            },
            Kind::Item => {
                self.flush_line();
            },
            Kind::CodeBlock => {
                self.close_code();
            },
            Kind::Strong => {
                self.bold = go_back(self.bold);
            },
            Kind::Emphasis => {
                self.italic = go_back(self.italic);
            },
            Kind::Strike => {
                self.strike = go_back(self.strike);
            },
            Kind::TableCell => {
                let mut cell: Option<Vec<char>> = None;
                std::mem::swap(&mut self.cell, &mut cell);
                match cell {
                    Some(text) => {
                        let ghost before = char_lists(self.row@);
                        self.row.push(text);
                        assert(char_lists(self.row@) =~= before.push(text@));
                    },
                    None => {},
                }
            },
            Kind::TableHead | Kind::TableRow => {
                let mut row: Vec<Vec<char>> = Vec::new();
                std::mem::swap(&mut self.row, &mut row);
                let ghost before = cells_text(self.rows@);
                let ghost model = char_lists(row@);
                self.rows.push(row);
                assert(cells_text(self.rows@) =~= before.push(model));
                assert(char_lists(self.row@) =~= Seq::empty());
            },
            Kind::Table => {
                self.close_table();
            },
            Kind::Image | Kind::Other => {},
        }
        assert(self@ =~= old(self)@.closed(kind));
    }

    fn push_text(&mut self, text: &str)
        ensures
            final(self)@ == old(self)@.said(WordText::Text(text@)),
    {
        if self.cell.is_some() {
            let normal: Vec<char> = normalize(text);
            self.push_cell_text(&normal);
            return ;
        }
        let plain: Option<bool> = match &self.fence {
            None => None,
            Some(Fence::Plain) => Some(true),
            Some(_) => Some(false),
        };
        match plain {
            None => {
                let style: Style = self.style();
                self.push_span(text, style);
            },
            Some(true) => {
                let normal: Vec<char> = normalize(text);
                self.push_code_text(&normal);
            },
            Some(false) => {
                let normal: Vec<char> = normalize(text);
                append_chars(&mut self.body, &normal);
                assert(self@ =~= old(self)@.said(WordText::Text(text@)));
            },
        }
    }

    fn push_code(&mut self, text: &str)
        ensures
            final(self)@ == old(self)@.said(WordText::Code(text@)),
    {
        if self.cell.is_some() {
            let normal: Vec<char> = normalize(text);
            self.push_cell_text(&normal);
        } else {
            let style: Style = self.style();
            self.push_span(text, style);
        }
    }

    fn push_break(&mut self, hard: bool)
        ensures
            final(self)@ == old(self)@.said(
                if hard {
                    WordText::HardBreak
                } else {
                    WordText::SoftBreak
                },
            ),
    {
        if self.cell.is_some() {
            let mut space: Vec<char> = Vec::new();
            space.push(' ');
            assert(space@ =~= seq![' ']);
            self.push_cell_text(&space);
        } else if hard {
            self.flush_line();
        } else {
            let style: Style = self.style();
            self.push_span(" ", style);
        }
    }

    fn push_task(&mut self, done: bool)
        ensures
            final(self)@ == old(self)@.said(WordText::Task(done)),
    {
        let style: Style = self.style();
        self.current.spans = Vec::new();
        assert(self.current@.spans =~= Seq::empty());
        assert(self@ =~= (FlowText { current: empty_line(old(self)@.current.indent), ..old(self)@ }));
        if done {
            self.push_span("[x] ", style);
        } else {
            self.push_span("[ ] ", style);
        }
    }

    fn say(&mut self, word: &Word)
        ensures
            final(self)@ == old(self)@.said(word@),
    {
        match word {
            Word::Text(text) => {
                self.push_text(text.as_str());
            },
            Word::Code(text) => {
                self.push_code(text.as_str());
            },
            Word::SoftBreak => {
                self.push_break(false);
            },
            Word::HardBreak => {
                self.push_break(true);
            },
            Word::Rule(source) => {
                if is_gappy(source.as_str()) {
                    self.push_block(MdBlock::Tear);
                } else {
                    self.push_block(MdBlock::Rule);
                }
            },
            Word::Task(done) => {
                self.push_task(*done);
            },
            _ => {},
        }
    }

    fn close_image(&mut self, names: &Vec<String>)
        ensures
            final(self)@ == old(self)@.image_ended(texts(names@)),
    {
        let label: String = make_placeholder(&self.alt, self.target.as_str());
        let place: Option<usize> = find_name(names, self.target.as_str());
        let style: Style = Style {
            font: FontStyle::Italic,
            size: self.size(),
            strike: self.strike > 0,
        };
        self.images = 0;
        assert(self@ =~= (FlowText { images: 0, ..old(self)@ }));
        if self.cell.is_some() {
            let text: Vec<char> = chars_of(label.as_str());
            self.push_cell_text(&text);
            return ;
        }
        match place {
            Some(i) => {
                self.push_block(MdBlock::Image(i));
            },
            None => {
                self.flush_line();
                self.push_span(label.as_str(), style);
                self.flush_line();
            },
        }
    }

    /// Inside an image everything but text is swallowed until it ends.
    fn handle_in_image(&mut self, mark: Mark, word: &Word, names: &Vec<String>)
        ensures
            final(self)@ == old(self)@.in_image(mark, word@, texts(names@)),
    {
        match mark {
            Some((true, Kind::Image)) => {
                self.images = go_deeper(self.images);
            },
            Some((false, Kind::Image)) => {
                if self.images == 1 {
                    self.close_image(names);
                    return ;
                }
                self.images = go_back(self.images);
            },
            Some(_) => {},
            None => {
                match word {
                    Word::Text(text) => {
                        let normal: Vec<char> = normalize(text.as_str());
                        append_chars(&mut self.alt, &normal);
                    },
                    Word::Code(text) => {
                        let normal: Vec<char> = normalize(text.as_str());
                        append_chars(&mut self.alt, &normal);
                    },
                    Word::SoftBreak | Word::HardBreak => {
                        self.alt.push(' ');
                    },
                    _ => {},
                }
            },
        }
        assert(self@ =~= old(self)@.in_image(mark, word@, texts(names@)));
    }

    fn handle(&mut self, mark: Mark, word: &Word, names: &Vec<String>)
        ensures
            final(self)@ == old(self)@.after(mark, word@, texts(names@)),
    {
        if self.images > 0 {
            self.handle_in_image(mark, word, names);
            return ;
        }
        match mark {
            Some((true, kind)) => {
                self.start(kind, word);
            },
            Some((false, kind)) => {
                self.end(kind);
            },
            None => {
                self.say(word);
            },
        }
    }

    fn finish(self) -> (blocks: Vec<MdBlock>)
        ensures
            block_texts(blocks@) == self@.block_ended().blocks,
    {
        let mut st: Lowering = self;
        st.flush_block();
        st.blocks
    }
}

/// The blocks of a document, from the marks and words of its events and the
/// names of the images that were resolved.
pub fn lower(marks: &Vec<Mark>, words: &Vec<Word>, names: &Vec<String>) -> (blocks: Vec<MdBlock>)
    requires
        marks@.len() == words@.len(),
    ensures
        block_texts(blocks@) == blocks_of(marks@, word_texts(words@), texts(names@)),
{
    let mut st: Lowering = Lowering::new();
    let mut i: usize = 0;
    while i < marks.len()
        invariant
            i <= marks@.len(),
            words@.len() == marks@.len(),
            st@ == flow_after(marks@, word_texts(words@), texts(names@), i as int),
        decreases marks@.len() - i,
    {
        st.handle(marks[i], &words[i], names);
        i = i + 1;
    }
    st.finish()
}

} // verus!
