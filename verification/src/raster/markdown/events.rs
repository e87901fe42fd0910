//! What a markdown parser finds in a document, as plain values.
//!
//! A document is a list of events. Each has a mark, where it opens or closes an
//! element, and a word: the text or the detail that comes with it.

use pulldown_cmark::Event::{Code, End, HardBreak, Rule, SoftBreak, Start, TaskListMarker, Text};
use pulldown_cmark::TagEnd::{
    BlockQuote, CodeBlock, Emphasis, Heading, Image, Item, List, Paragraph, Strikethrough, Strong,
    Table, TableCell, TableHead, TableRow,
};
use pulldown_cmark::{CodeBlockKind, Options, Parser, Tag};
use vstd::prelude::*;
#[allow(unused_imports)]
use crate::raster::markdown::sources::{is_form, is_word, marks_in, source_of, words_in, Form};

verus! {

/// An element of a document.
#[derive(Debug, Clone, Copy, PartialEq, Eq, Structural)]
pub enum Kind {
    Paragraph,
    /// A heading of this level, from one.
    Heading(u8),
    Quote,
    CodeBlock,
    List,
    Item,
    Table,
    TableHead,
    TableRow,
    TableCell,
    Emphasis,
    Strong,
    Strike,
    Image,
    /// Anything else.
    Other,
}

/// Whether an event opens an element (`true`) or closes it, and which.
pub type Mark = Option<(bool, Kind)>;

/// The text or the detail of an event.
#[derive(Debug)]
pub enum Word {
    Text(String),
    /// Inline code.
    Code(String),
    SoftBreak,
    HardBreak,
    /// A thematic break, with its source.
    Rule(String),
    /// A task list marker: whether the task is done.
    Task(bool),
    /// A list opens here: the number of its first item, if they are numbered.
    First(Option<u64>),
    /// An image opens here: where it is to be found.
    Target(String),
    /// A fenced code block opens here: what stands behind the fence.
    Info(String),
    /// Nothing that is printed.
    Nothing,
}

/// A [`Word`] with its text as a sequence.
pub enum WordText {
    Text(Seq<char>),
    Code(Seq<char>),
    SoftBreak,
    HardBreak,
    Rule(Seq<char>),
    Task(bool),
    First(Option<u64>),
    Target(Seq<char>),
    Info(Seq<char>),
    Nothing,
}

impl View for Word {
    type V = WordText;

    open spec fn view(&self) -> WordText {
        match *self {
            Word::Text(t) => WordText::Text(t@),
            Word::Code(t) => WordText::Code(t@),
            Word::SoftBreak => WordText::SoftBreak,
            Word::HardBreak => WordText::HardBreak,
            Word::Rule(t) => WordText::Rule(t@),
            Word::Task(done) => WordText::Task(done),
            Word::First(n) => WordText::First(n),
            Word::Target(t) => WordText::Target(t@),
            Word::Info(t) => WordText::Info(t@),
            Word::Nothing => WordText::Nothing,
        }
    }
}

/// The words of a list, with their text as sequences.
pub open spec fn word_texts(words: Seq<Word>) -> Seq<WordText> {
    Seq::new(words.len(), |i: int| words[i]@)
}

/// The mark of each event of a document.
pub uninterp spec fn marks_of(md: Seq<char>) -> Seq<Mark>;

/// The word of each event of a document.
pub uninterp spec fn words_of(md: Seq<char>) -> Seq<WordText>;

/// Whether there is nothing but spaces and newlines in a text.
pub open spec fn is_empty_page(md: Seq<char>) -> bool {
    forall|i: int| 0 <= i < md.len() ==> #[trigger] md[i] == ' ' || md[i] == '\n'
}

/// The iterator `Parser` of the `pulldown-cmark` crate, with strikethrough, task
/// lists and tables on: which of its events open an element and which close one.
/// They depend on the text alone. Blank lines alone have no events, and a word of
/// letters in simple markup has those of that markup. Which events any other
/// text has is left unsaid.
#[verifier::external_body]
pub(crate) fn parse_marks(md: &str) -> (marks: Vec<Mark>)
    ensures
        marks@ == marks_of(md@),
        is_empty_page(md@) ==> marks@.len() == 0,
        forall|form: Form, w: Seq<char>|
            is_form(form) && is_word(w) && md@ == #[trigger] source_of(form, w) ==> marks@
                == marks_in(form),
{
    Parser::new_ext(
        md, Options::ENABLE_STRIKETHROUGH | Options::ENABLE_TASKLISTS | Options::ENABLE_TABLES
    ).map(|e| match e {
        Start(t) => Some((true, t.to_end())), End(t) => Some((false, t)), _ => None
    }).map(|m| m.map(|(open, t)| (open, match t {
        Paragraph => Kind::Paragraph, Heading(level) => Kind::Heading(level as u8),
        BlockQuote(_) => Kind::Quote, CodeBlock => Kind::CodeBlock, List(_) => Kind::List,
        Item => Kind::Item, Table => Kind::Table, TableHead => Kind::TableHead,
        TableRow => Kind::TableRow, TableCell => Kind::TableCell, Emphasis => Kind::Emphasis,
        Strong => Kind::Strong, Strikethrough => Kind::Strike, Image => Kind::Image,
        _ => Kind::Other
    }))).collect()
}

/// The iterator `Parser::into_offset_iter` of the `pulldown-cmark` crate, with
/// strikethrough, task lists and tables on: the texts and details of the same
/// events. They depend on the text alone, and there is one for each event. Those
/// of a word of letters in simple markup are said; which events any other text
/// has is left unsaid.
#[verifier::external_body]
pub(crate) fn parse_words(md: &str) -> (words: Vec<Word>)
    ensures
        word_texts(words@) == words_of(md@),
        words@.len() == marks_of(md@).len(),
        forall|form: Form, w: Seq<char>|
            is_form(form) && is_word(w) && md@ == #[trigger] source_of(form, w) ==> word_texts(
                words@,
            ) == words_in(form, w),
{
    let on = Options::ENABLE_STRIKETHROUGH | Options::ENABLE_TASKLISTS | Options::ENABLE_TABLES;
    Parser::new_ext(md, on).into_offset_iter().map(|(e, at)| match e {
        Text(t) => Word::Text(t.to_string()),
        Code(t) => Word::Code(t.to_string()),
        SoftBreak => Word::SoftBreak,
        HardBreak => Word::HardBreak,
        Rule => Word::Rule(md[at].to_string()),
        TaskListMarker(done) => Word::Task(done),
        Start(Tag::List(first)) => Word::First(first),
        Start(Tag::Image { dest_url, .. }) => Word::Target(dest_url.to_string()),
        Start(Tag::CodeBlock(CodeBlockKind::Fenced(info))) => Word::Info(info.to_string()),
        _ => Word::Nothing,
    }).collect()
}

} // verus!
