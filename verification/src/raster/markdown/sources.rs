//! Markup around a word, and which of it prints alike.

use vstd::prelude::*;
#[allow(unused_imports)]
use crate::images::ResolvedImage;
#[allow(unused_imports)]
use crate::raster::bitmap::{pixels_determine_bitmap, Bitmap};
#[allow(unused_imports)]
use crate::raster::faces::Faces;
#[allow(unused_imports)]
use crate::raster::markdown::events::{Kind, Mark, WordText};
#[allow(unused_imports)]
use crate::raster::markdown::laws::{
    bold_wins, deep_headings_look_alike, links_print_as_their_text, loose_items_look_tight,
};
#[allow(unused_imports)]
use crate::raster::markdown::model::{blocks_of, flow_after, flow_start, BlockText, FlowText};
#[allow(unused_imports)]
use crate::raster::markdown::render::{all_drawn, dests, is_document, is_drawn};
#[allow(unused_imports)]
use crate::raster::rich::rows_of as text_rows;
#[allow(unused_imports)]
use crate::raster::stack::{rows_of, stacked};
#[allow(unused_imports)]
use crate::raster::typeset::shows;

verus! {

/// Markup around a word.
pub enum Form {
    /// The word alone.
    Plain,
    /// As inline code.
    Code,
    /// As the text of a link.
    Link,
    Bold,
    BoldItalic,
    /// As a heading of this level, from one to six.
    Heading(u8),
    /// Underlined as a heading.
    Underlined,
    /// As both items of a list, on lines one below the other.
    TightList,
    /// As both items of a list, with a blank line between them.
    LooseList,
}

/// Whether a text is a word of ASCII letters.
pub open spec fn is_word(w: Seq<char>) -> bool {
    &&& w.len() > 0
    &&& forall|i: int|
        0 <= i < w.len() ==> 'a' <= #[trigger] w[i] <= 'z' || 'A' <= w[i] <= 'Z'
}

/// The marks that begin a heading.
pub open spec fn hashes(level: u8) -> Seq<char> {
    Seq::new(level as nat, |i: int| '#')
}

/// A word in its markup.
pub open spec fn source_of(form: Form, w: Seq<char>) -> Seq<char> {
    match form {
        Form::Plain => w,
        Form::Code => "`"@ + w + "`"@,
        Form::Link => "["@ + w + "](http://u)"@,
        Form::Bold => "**"@ + w + "**"@,
        Form::BoldItalic => "***"@ + w + "***"@,
        Form::Heading(level) => hashes(level) + " "@ + w,
        Form::Underlined => w + "\n==="@,
        Form::TightList => "- "@ + w + "\n- "@ + w,
        Form::LooseList => "- "@ + w + "\n\n- "@ + w,
    }
}

/// Whether there is such markup: headings have six levels.
pub open spec fn is_form(form: Form) -> bool {
    form matches Form::Heading(level) ==> 1 <= level <= 6
}

/// The marks of the events of a word in its markup.
pub open spec fn marks_in(form: Form) -> Seq<Mark> {
    let paragraph = (true, Kind::Paragraph);
    let paragraph_end = (false, Kind::Paragraph);
    let item = (true, Kind::Item);
    let item_end = (false, Kind::Item);
    match form {
        Form::Plain | Form::Code => seq![Some(paragraph), None, Some(paragraph_end)],
        Form::Link => seq![
            Some(paragraph),
            Some((true, Kind::Other)),
            None,
            Some((false, Kind::Other)),
            Some(paragraph_end),
        ],
        Form::Bold => seq![
            Some(paragraph),
            Some((true, Kind::Strong)),
            None,
            Some((false, Kind::Strong)),
            Some(paragraph_end),
        ],
        Form::BoldItalic => seq![
            Some(paragraph),
            Some((true, Kind::Emphasis)),
            Some((true, Kind::Strong)),
            None,
            Some((false, Kind::Strong)),
            Some((false, Kind::Emphasis)),
            Some(paragraph_end),
        ],
        Form::Heading(level) => seq![
            Some((true, Kind::Heading(level))),
            None,
            Some((false, Kind::Heading(level))),
        ],
        Form::Underlined => seq![
            Some((true, Kind::Heading(1))),
            None,
            Some((false, Kind::Heading(1))),
        ],
        Form::TightList => seq![
            Some((true, Kind::List)),
            Some(item),
            None,
            Some(item_end),
            Some(item),
            None,
            Some(item_end),
            Some((false, Kind::List)),
        ],
        Form::LooseList => seq![
            Some((true, Kind::List)),
            Some(item),
            Some(paragraph),
            None,
            Some(paragraph_end),
            Some(item_end),
            Some(item),
            Some(paragraph),
            None,
            Some(paragraph_end),
            Some(item_end),
            Some((false, Kind::List)),
        ],
    }
}

/// The words of the events of a word in its markup: the word where there is no
/// mark, the kind of a list where one opens, and nothing elsewhere.
pub open spec fn words_in(form: Form, w: Seq<char>) -> Seq<WordText> {
    Seq::new(
        marks_in(form).len(),
        |i: int|
            match marks_in(form)[i] {
                None => if form is Code {
                    WordText::Code(w)
                } else {
                    WordText::Text(w)
                },
                Some((true, Kind::List)) => WordText::First(None),
                Some(_) => WordText::Nothing,
            },
    )
}

/// The plainer markup that prints alike.
pub open spec fn plainer(form: Form) -> Form {
    match form {
        Form::Code | Form::Link => Form::Plain,
        Form::BoldItalic => Form::Bold,
        Form::Underlined => Form::Heading(1),
        Form::Heading(level) => Form::Heading(
            if level > 3 {
                3
            } else {
                level
            },
        ),
        Form::LooseList => Form::TightList,
        _ => form,
    }
}

/// The blocks of a word in its markup.
pub open spec fn blocks_in(form: Form, w: Seq<char>, names: Seq<Seq<char>>) -> Seq<BlockText> {
    blocks_of(marks_in(form), words_in(form, w), names)
}

/// Whether a document so far is in the middle of text, with nothing set off.
spec fn is_running(flow: FlowText) -> bool {
    flow.images == 0 && flow.cell is None && flow.fence is None && flow.blocks.len() == 0
}

/// Whether an element is no more than markup of text.
spec fn is_markup(kind: Kind) -> bool {
    match kind {
        Kind::Paragraph | Kind::Heading(_) | Kind::List | Kind::Item => true,
        Kind::Strong | Kind::Emphasis | Kind::Other => true,
        _ => false,
    }
}

proof fn lemma_opening(flow: FlowText, kind: Kind, word: WordText)
    requires
        is_running(flow),
        is_markup(kind),
    ensures
        is_running(flow.opened(kind, word)),
{
}

proof fn lemma_closing(flow: FlowText, kind: Kind)
    requires
        is_running(flow),
        is_markup(kind),
    ensures
        is_running(flow.closed(kind)),
{
}

proof fn lemma_saying(flow: FlowText, w: Seq<char>)
    requires
        is_running(flow),
    ensures
        is_running(flow.said(WordText::Text(w))),
        flow.said(WordText::Code(w)) == flow.said(WordText::Text(w)),
{
}

/// What one event of markup does to running text.
spec fn step(flow: FlowText, mark: Mark, word: WordText) -> FlowText {
    match mark {
        Some((true, kind)) => flow.opened(kind, word),
        Some((false, kind)) => flow.closed(kind),
        None => flow.said(word),
    }
}

proof fn lemma_step(form: Form, w: Seq<char>, names: Seq<Seq<char>>, n: int)
    requires
        0 < n <= marks_in(form).len(),
        is_running(flow_after(marks_in(form), words_in(form, w), names, n - 1)),
        marks_in(form)[n - 1] matches Some((_, kind)) ==> is_markup(kind),
    ensures
        flow_after(marks_in(form), words_in(form, w), names, n) == step(
            flow_after(marks_in(form), words_in(form, w), names, n - 1),
            marks_in(form)[n - 1],
            words_in(form, w)[n - 1],
        ),
        is_running(flow_after(marks_in(form), words_in(form, w), names, n)),
{
    let before = flow_after(marks_in(form), words_in(form, w), names, n - 1);
    let word = words_in(form, w)[n - 1];
    match marks_in(form)[n - 1] {
        Some((true, kind)) => {
            lemma_opening(before, kind, word);
        },
        Some((false, kind)) => {
            lemma_closing(before, kind);
        },
        None => {
            lemma_saying(before, w);
        },
    }
}

proof fn lemma_paragraph(w: Seq<char>, names: Seq<Seq<char>>, form: Form)
    requires
        form is Plain || form is Code,
    ensures
        flow_after(marks_in(form), words_in(form, w), names, 3) == flow_start().opened(
            Kind::Paragraph,
            WordText::Nothing,
        ).said(WordText::Text(w)).closed(Kind::Paragraph),
        is_running(flow_after(marks_in(form), words_in(form, w), names, 3)),
{
    lemma_step(form, w, names, 1);
    lemma_step(form, w, names, 2);
    lemma_step(form, w, names, 3);
    lemma_saying(flow_start().opened(Kind::Paragraph, WordText::Nothing), w);
}

proof fn lemma_link(w: Seq<char>, names: Seq<Seq<char>>)
    ensures
        flow_after(marks_in(Form::Link), words_in(Form::Link, w), names, 5) == flow_start().opened(
            Kind::Paragraph,
            WordText::Nothing,
        ).said(WordText::Text(w)).closed(Kind::Paragraph),
{
    let form = Form::Link;
    lemma_step(form, w, names, 1);
    lemma_step(form, w, names, 2);
    lemma_step(form, w, names, 3);
    lemma_step(form, w, names, 4);
    lemma_step(form, w, names, 5);
    let open = flow_start().opened(Kind::Paragraph, WordText::Nothing);
    links_print_as_their_text(open, WordText::Nothing);
    links_print_as_their_text(open.said(WordText::Text(w)), WordText::Nothing);
}

proof fn lemma_italics_inside_bold(flow: FlowText, w: Seq<char>)
    requires
        is_running(flow),
        flow.bold == 0,
        flow.italic == 0,
    ensures
        flow.opened(Kind::Emphasis, WordText::Nothing).opened(
            Kind::Strong,
            WordText::Nothing,
        ).said(WordText::Text(w)).closed(Kind::Strong).closed(Kind::Emphasis) == flow.opened(
            Kind::Strong,
            WordText::Nothing,
        ).said(WordText::Text(w)).closed(Kind::Strong),
{
    let bold = flow.opened(Kind::Strong, WordText::Nothing);
    let both = flow.opened(Kind::Emphasis, WordText::Nothing).opened(
        Kind::Strong,
        WordText::Nothing,
    );
    bold_wins(bold, both);
    assert(both.said(WordText::Text(w)).closed(Kind::Strong).closed(Kind::Emphasis) =~= bold.said(
        WordText::Text(w),
    ).closed(Kind::Strong));
}

#[verifier::spinoff_prover]
#[verifier::rlimit(60)]
proof fn lemma_bold(w: Seq<char>, names: Seq<Seq<char>>)
    ensures
        flow_after(marks_in(Form::BoldItalic), words_in(Form::BoldItalic, w), names, 7)
            == flow_after(marks_in(Form::Bold), words_in(Form::Bold, w), names, 5),
        is_running(flow_after(marks_in(Form::Bold), words_in(Form::Bold, w), names, 5)),
{
    let bold = Form::Bold;
    lemma_step(bold, w, names, 1);
    lemma_step(bold, w, names, 2);
    lemma_step(bold, w, names, 3);
    lemma_step(bold, w, names, 4);
    lemma_step(bold, w, names, 5);
    let both = Form::BoldItalic;
    lemma_step(both, w, names, 1);
    lemma_step(both, w, names, 2);
    lemma_step(both, w, names, 3);
    lemma_step(both, w, names, 4);
    lemma_step(both, w, names, 5);
    lemma_step(both, w, names, 6);
    lemma_step(both, w, names, 7);
    lemma_italics_inside_bold(flow_start().opened(Kind::Paragraph, WordText::Nothing), w);
}

/// A heading.
#[verifier::opaque]
spec fn heading(level: u8, w: Seq<char>) -> FlowText {
    flow_start().opened(Kind::Heading(level), WordText::Nothing).said(WordText::Text(w)).closed(
        Kind::Heading(level),
    )
}

proof fn lemma_heading(level: u8, w: Seq<char>, names: Seq<Seq<char>>)
    ensures
        flow_after(marks_in(Form::Heading(level)), words_in(Form::Heading(level), w), names, 3)
            == heading(level, w),
        is_running(heading(level, w)),
{
    reveal(heading);
    let form = Form::Heading(level);
    lemma_step(form, w, names, 1);
    lemma_step(form, w, names, 2);
    lemma_step(form, w, names, 3);
}

proof fn lemma_deep_headings(level: u8, w: Seq<char>)
    requires
        level > 3,
    ensures
        heading(level, w) == heading(3, w),
{
    reveal(heading);
    deep_headings_look_alike(flow_start(), level, 3, WordText::Nothing);
    let said = flow_start().opened(Kind::Heading(3), WordText::Nothing).said(WordText::Text(w));
    deep_headings_look_alike(said, level, 3, WordText::Nothing);
}

/// A word in its markup once all of it has been read.
#[verifier::opaque]
spec fn ended(form: Form, w: Seq<char>, names: Seq<Seq<char>>) -> FlowText {
    flow_after(marks_in(form), words_in(form, w), names, marks_in(form).len() as int)
}

/// Whether all blocks are text.
spec fn all_lines(blocks: Seq<BlockText>) -> bool {
    forall|k: int| 0 <= k < blocks.len() ==> #[trigger] blocks[k] is Lines
}

proof fn lemma_running_text_is_lines(flow: FlowText)
    requires
        is_running(flow),
    ensures
        all_lines(flow.block_ended().blocks),
{
}

proof fn lemma_same_end(form: Form, other: Form, w: Seq<char>, names: Seq<Seq<char>>)
    requires
        ended(form, w, names) == ended(other, w, names),
        is_running(ended(other, w, names)),
    ensures
        blocks_in(form, w, names) == blocks_in(other, w, names),
        all_lines(blocks_in(form, w, names)),
{
    reveal(ended);
    lemma_running_text_is_lines(ended(other, w, names));
}

proof fn lemma_heading_end(level: u8, w: Seq<char>, names: Seq<Seq<char>>)
    ensures
        ended(Form::Heading(level), w, names) == heading(level, w),
        is_running(ended(Form::Heading(level), w, names)),
{
    reveal(ended);
    lemma_heading(level, w, names);
}

proof fn lemma_underlined(w: Seq<char>, names: Seq<Seq<char>>)
    ensures
        ended(Form::Underlined, w, names) == ended(Form::Heading(1), w, names),
{
    reveal(ended);
    assert(marks_in(Form::Underlined) =~= marks_in(Form::Heading(1)));
    assert(words_in(Form::Underlined, w) =~= words_in(Form::Heading(1), w));
}

proof fn lemma_plain_end(form: Form, w: Seq<char>, names: Seq<Seq<char>>)
    requires
        form is Plain || form is Code || form is Link,
    ensures
        ended(form, w, names) == ended(Form::Plain, w, names),
        is_running(ended(Form::Plain, w, names)),
{
    reveal(ended);
    lemma_paragraph(w, names, Form::Plain);
    if form is Link {
        lemma_link(w, names);
    } else {
        lemma_paragraph(w, names, form);
    }
}

proof fn lemma_bold_end(form: Form, w: Seq<char>, names: Seq<Seq<char>>)
    requires
        form is Bold || form is BoldItalic,
    ensures
        ended(form, w, names) == ended(Form::Bold, w, names),
        is_running(ended(Form::Bold, w, names)),
{
    reveal(ended);
    lemma_bold(w, names);
}

#[verifier::spinoff_prover]
#[verifier::rlimit(60)]
proof fn lemma_list_end(form: Form, w: Seq<char>, names: Seq<Seq<char>>)
    requires
        form is TightList || form is LooseList,
    ensures
        ended(form, w, names) == ended(Form::TightList, w, names),
        is_running(ended(Form::TightList, w, names)),
{
    reveal(ended);
    lemma_tight_list(w, names);
    lemma_loose_list(w, names);
}

proof fn lemma_ends_like_the_plainer(form: Form, w: Seq<char>, names: Seq<Seq<char>>)
    ensures
        ended(form, w, names) == ended(plainer(form), w, names),
        is_running(ended(plainer(form), w, names)),
{
    match form {
        Form::Plain | Form::Code | Form::Link => {
            lemma_plain_end(form, w, names);
        },
        Form::Bold | Form::BoldItalic => {
            lemma_bold_end(form, w, names);
        },
        Form::Heading(level) => {
            lemma_heading_end(level, w, names);
            if level > 3 {
                lemma_heading_end(3, w, names);
                lemma_deep_headings(level, w);
            }
        },
        Form::Underlined => {
            lemma_underlined(w, names);
            lemma_heading_end(1, w, names);
        },
        Form::TightList | Form::LooseList => {
            lemma_list_end(form, w, names);
        },
    }
}

/// One item of a list, on its own.
spec fn item(flow: FlowText, w: Seq<char>) -> FlowText {
    flow.opened(Kind::Item, WordText::Nothing).said(WordText::Text(w)).closed(Kind::Item)
}

/// A list of two items.
#[verifier::opaque]
spec fn list(w: Seq<char>) -> FlowText {
    item(item(flow_start().opened(Kind::List, WordText::First(None)), w), w).closed(Kind::List)
}

proof fn lemma_tight_list(w: Seq<char>, names: Seq<Seq<char>>)
    ensures
        flow_after(marks_in(Form::TightList), words_in(Form::TightList, w), names, 8) == list(w),
        is_running(list(w)),
{
    reveal(list);
    let form = Form::TightList;
    lemma_step(form, w, names, 1);
    lemma_step(form, w, names, 2);
    lemma_step(form, w, names, 3);
    lemma_step(form, w, names, 4);
    lemma_step(form, w, names, 5);
    lemma_step(form, w, names, 6);
    lemma_step(form, w, names, 7);
    lemma_step(form, w, names, 8);
}

proof fn lemma_item_keeps_list(flow: FlowText, w: Seq<char>)
    requires
        is_running(flow),
        flow.lists == seq![None::<u64>],
    ensures
        flow.opened(Kind::Item, WordText::Nothing).lists == flow.lists,
        item(flow, w).lists == flow.lists,
        is_running(item(flow, w)),
{
}

proof fn lemma_loose_list(w: Seq<char>, names: Seq<Seq<char>>)
    ensures
        flow_after(marks_in(Form::LooseList), words_in(Form::LooseList, w), names, 12) == list(w),
{
    reveal(list);
    let form = Form::LooseList;
    let start = flow_start().opened(Kind::List, WordText::First(None));
    lemma_step(form, w, names, 1);
    assert(start.lists =~= seq![None::<u64>]);
    lemma_item_keeps_list(start, w);
    lemma_step(form, w, names, 2);
    lemma_step(form, w, names, 3);
    lemma_step(form, w, names, 4);
    lemma_step(form, w, names, 5);
    lemma_step(form, w, names, 6);
    loose_items_look_tight(start.opened(Kind::Item, WordText::Nothing), w);
    let one = item(start, w);
    assert(flow_after(marks_in(form), words_in(form, w), names, 6) == one);
    lemma_item_keeps_list(one, w);
    lemma_step(form, w, names, 7);
    lemma_step(form, w, names, 8);
    lemma_step(form, w, names, 9);
    lemma_step(form, w, names, 10);
    lemma_step(form, w, names, 11);
    loose_items_look_tight(one.opened(Kind::Item, WordText::Nothing), w);
    lemma_step(form, w, names, 12);
}

/// Text prints in one way: two documents with the same blocks of text have the
/// same rows.
pub proof fn text_prints_in_one_way(
    a: Seq<Seq<u8>>,
    b: Seq<Seq<u8>>,
    blocks: Seq<BlockText>,
    images: Seq<ResolvedImage>,
    faces: &Faces,
)
    requires
        forall|k: int| 0 <= k < blocks.len() ==> #[trigger] blocks[k] is Lines,
        is_document(a, blocks, images, faces),
        is_document(b, blocks, images, faces),
    ensures
        a == b,
{
    let p = choose|parts: Seq<Bitmap>| #[trigger]
        all_drawn(parts, blocks, images, faces) && a == stacked(rows_of(parts), 0);
    let q = choose|parts: Seq<Bitmap>| #[trigger]
        all_drawn(parts, blocks, images, faces) && b == stacked(rows_of(parts), 0);
    assert forall|i: int| 0 <= i < p.len() implies p[i]@ == q[i]@ by {
        assert(blocks[i] is Lines);
        assert(is_drawn(&p[i], blocks[i], images, faces));
        assert(is_drawn(&q[i], blocks[i], images, faces));
        assert forall|x: int, y: int|
            0 <= x < crate::raster::bitmap::WIDTH && 0 <= y < p[i]@.len() implies #[trigger] p[i].black(
            x,
            y,
        ) == q[i].black(x, y) by {}
        pixels_determine_bitmap(&p[i], &q[i]);
    }
    assert(rows_of(p) =~= rows_of(q));
}

/// Markup that makes no difference on paper: of a word of letters, inline code
/// and the text of a link print like the word, bold italics like bold, a
/// heading below the third level like one of the third, an underlined heading
/// like one of the first, and a loose list like a tight one.
pub proof fn markup_prints_like_the_plainer(
    form: Form,
    w: Seq<char>,
    a: Seq<Seq<u8>>,
    b: Seq<Seq<u8>>,
    images: Seq<ResolvedImage>,
    faces: &Faces,
)
    requires
        is_document(a, blocks_in(form, w, dests(images)), images, faces),
        is_document(b, blocks_in(plainer(form), w, dests(images)), images, faces),
    ensures
        a == b,
{
    let names = dests(images);
    lemma_ends_like_the_plainer(form, w, names);
    lemma_same_end(form, plainer(form), w, names);
    text_prints_in_one_way(a, b, blocks_in(form, w, names), images, faces);
}

} // verus!
