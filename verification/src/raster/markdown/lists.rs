//! The markers of list items.

use vstd::prelude::*;
#[allow(unused_imports)]
use crate::raster::markdown::events::{Kind, Mark, WordText};
#[allow(unused_imports)]
use crate::raster::markdown::model::{code_lines, flow_after, place_of, FenceText, FlowText};
#[allow(unused_imports)]
use crate::raster::rich::LineText;
#[allow(unused_imports)]
use crate::raster::text::{normal_piece, normal_start, normalized};
#[allow(unused_imports)]
use crate::strings::{decimal_digits, decimal_digits_stand_for_the_number, is_decimal};

verus! {

/// Whether a text is the marker of an item: its number, a full stop and a space,
/// or a bullet and a space.
pub open spec fn is_marker(text: Seq<char>, number: Option<u64>) -> bool {
    match number {
        Some(n) => {
            let end = text.len() - 2;
            &&& end >= 0
            &&& text[end] == '.'
            &&& text[end + 1] == ' '
            &&& is_decimal(text.take(end), n as nat)
        },
        None => text == seq!['•', ' '],
    }
}

/// Whether a line holds a marker and nothing else.
pub open spec fn is_fresh_item(line: LineText, number: Option<u64>) -> bool {
    line.spans.len() == 1 && is_marker(line.spans[0].text, number)
}

proof fn lemma_plain(text: Seq<char>, n: int)
    requires
        0 <= n <= text.len(),
        forall|i: int| 0 <= i < text.len() ==> #[trigger] text[i] != '\t' && text[i] != '\r',
    ensures
        normal_start(text, n) == text.take(n),
    decreases n,
{
    if n > 0 {
        lemma_plain(text, n - 1);
        assert(text[n - 1] != '\t' && text[n - 1] != '\r');
        assert(text.take(n) =~= text.take(n - 1) + seq![text[n - 1]]);
    } else {
        assert(text.take(0) =~= Seq::empty());
    }
}

proof fn lemma_marker(flow: FlowText)
    requires
        flow.lists.len() > 0,
    ensures
        is_marker(normalized(flow.prefix()), flow.lists.last()),
{
    reveal_strlit(". ");
    reveal_strlit("• ");
    let text = flow.prefix();
    match flow.lists.last() {
        Some(n) => {
            let digits = decimal_digits(n as nat);
            decimal_digits_stand_for_the_number(n as nat);
            assert forall|i: int| 0 <= i < text.len() implies #[trigger] text[i] != '\t' && text[i]
                != '\r' by {
                if i < digits.len() {
                    assert(text[i] == digits[i]);
                }
            }
            lemma_plain(text, text.len() as int);
            assert(text.take(text.len() as int) =~= text);
            assert(text.take(text.len() - 2) =~= digits);
        },
        None => {
            assert(text =~= seq!['•', ' ']);
            lemma_plain(text, 2);
            assert(text.take(2) =~= text);
        },
    }
}

/// An item carries the marker of the list that it stands in, whatever lists are
/// open around that one: the next number of a numbered list, the bullet of any
/// other. It starts a line of its own, and what was on the line before stays.
pub proof fn an_item_carries_the_marker_of_its_list(
    flow: FlowText,
    names: Seq<Seq<char>>,
    word: WordText,
)
    requires
        flow.images == 0,
        flow.lists.len() > 0,
    ensures
        ({
            let item = flow.after(Some((true, Kind::Item)), word, names);
            let depth = flow.quotes + flow.lists.len();
            &&& is_fresh_item(item.current, flow.lists.last())
            &&& item.current.indent == if 24 * depth <= u32::MAX {
                (24 * depth) as int
            } else {
                u32::MAX as int
            }
            &&& item.lines == if flow.current.spans.len() > 0 {
                flow.lines.push(flow.current)
            } else {
                flow.lines
            }
        }),
{
    lemma_marker(flow);
}

/// The first item of a list carries the number that the list starts with, or a
/// bullet, wherever the list stands.
pub proof fn the_first_item_carries_the_start(
    flow: FlowText,
    names: Seq<Seq<char>>,
    start: Option<u64>,
    word: WordText,
)
    requires
        flow.images == 0,
    ensures
        ({
            let list = flow.after(Some((true, Kind::List)), WordText::First(start), names);
            is_fresh_item(list.after(Some((true, Kind::Item)), word, names).current, start)
        }),
{
    let list = flow.after(Some((true, Kind::List)), WordText::First(start), names);
    an_item_carries_the_marker_of_its_list(list, names, word);
}

proof fn lemma_code_keeps_lists(flow: FlowText, text: Seq<char>)
    ensures
        flow.with_code(text).lists == flow.lists,
    decreases text.len(),
{
    if text.len() > 0 {
        lemma_code_keeps_lists(flow, text.drop_last());
    }
}

/// Whether event `n` opens an item of the list at depth `d`.
pub open spec fn opens_item(
    marks: Seq<Mark>,
    words: Seq<WordText>,
    names: Seq<Seq<char>>,
    d: int,
    n: int,
) -> bool {
    let flow = flow_after(marks, words, names, n);
    marks[n] == Some((true, Kind::Item)) && flow.lists.len() == d && flow.images == 0
}

/// How many of the events from `a` on and before `b` open an item of the list at
/// depth `d`.
pub open spec fn items_between(
    marks: Seq<Mark>,
    words: Seq<WordText>,
    names: Seq<Seq<char>>,
    d: int,
    a: int,
    b: int,
) -> nat
    decreases b - a,
{
    if b <= a {
        0
    } else {
        items_between(marks, words, names, d, a, b - 1) + if opens_item(
            marks,
            words,
            names,
            d,
            b - 1,
        ) {
            1nat
        } else {
            0
        }
    }
}

proof fn lemma_step(flow: FlowText, mark: Mark, word: WordText, names: Seq<Seq<char>>, d: int)
    requires
        1 <= d <= flow.lists.len(),
        d <= flow.after(mark, word, names).lists.len(),
    ensures
        ({
            let lists = flow.after(mark, word, names).lists;
            let item = mark == Some((true, Kind::Item)) && flow.lists.len() == d && flow.images
                == 0;
            &&& lists.take(d - 1) == flow.lists.take(d - 1)
            &&& match flow.lists[d - 1] {
                Some(n) => lists[d - 1] == if item && n < u64::MAX {
                    Some((n + 1) as u64)
                } else {
                    Some(n)
                },
                None => lists[d - 1] is None,
            }
        }),
{
    let after = flow.after(mark, word, names);
    if let WordText::Text(text) = word {
        lemma_code_keeps_lists(flow, normalized(text));
    }
    assert(after.lists == flow.lists || after.lists == flow.lists.drop_last() || (flow.lists.len()
        > 0 && after.lists.len() == flow.lists.len() && after.lists.drop_last()
        == flow.lists.drop_last() && mark == Some((true, Kind::Item)) && flow.images == 0) || (
    after.lists.len() == flow.lists.len() + 1 && after.lists.drop_last() == flow.lists)) by {
        if flow.images == 0 && mark == Some((true, Kind::Item)) {
            assert(after.lists.drop_last() =~= flow.lists.drop_last());
        }
        if flow.images == 0 && mark == Some((true, Kind::List)) {
            assert(after.lists.drop_last() =~= flow.lists);
        }
    }
    assert forall|i: int| 0 <= i < d - 1 implies after.lists[i] == flow.lists[i] by {
        if after.lists.len() == flow.lists.len() {
            assert(after.lists.drop_last()[i] == flow.lists.drop_last()[i]);
        } else if after.lists.len() > flow.lists.len() {
            assert(after.lists.drop_last()[i] == flow.lists[i]);
        }
    }
    assert(after.lists.take(d - 1) =~= flow.lists.take(d - 1));
    if d < flow.lists.len() && after.lists.len() == flow.lists.len() {
        assert(after.lists.drop_last()[d - 1] == flow.lists.drop_last()[d - 1]);
    }
    if after.lists.len() > flow.lists.len() {
        assert(after.lists.drop_last()[d - 1] == flow.lists[d - 1]);
    }
}

proof fn lemma_items(
    marks: Seq<Mark>,
    words: Seq<WordText>,
    names: Seq<Seq<char>>,
    d: int,
    a: int,
    b: int,
)
    requires
        0 <= a <= b <= marks.len(),
        1 <= d,
        forall|n: int| a <= n <= b ==> d <= (#[trigger] flow_after(marks, words, names, n)).lists.len(),
    ensures
        ({
            let before = flow_after(marks, words, names, a).lists;
            let lists = flow_after(marks, words, names, b).lists;
            &&& lists.take(d - 1) == before.take(d - 1)
            &&& match before[d - 1] {
                Some(s) => s + items_between(marks, words, names, d, a, b) <= u64::MAX
                    ==> lists[d - 1] == Some(
                    (s + items_between(marks, words, names, d, a, b)) as u64,
                ),
                None => lists[d - 1] is None,
            }
        }),
    decreases b - a,
{
    if a < b {
        lemma_items(marks, words, names, d, a, b - 1);
        let flow = flow_after(marks, words, names, b - 1);
        assert(d <= flow_after(marks, words, names, b).lists.len());
        lemma_step(flow, marks[b - 1], words[b - 1], names, d);
    }
}

/// Items are numbered in order: an item of a numbered list carries the number that
/// the list starts with plus the number of items before it in the same list,
/// whatever stands in those items, other lists among it. The items of any other
/// list carry bullets.
pub proof fn items_are_numbered_in_order(
    marks: Seq<Mark>,
    words: Seq<WordText>,
    names: Seq<Seq<char>>,
    a: int,
    b: int,
    start: Option<u64>,
)
    requires
        // Event a opens the list, event b an item of it, and the list is not
        // closed in between.
        0 <= a < b < marks.len(),
        marks[a] == Some((true, Kind::List)),
        words[a] == WordText::First(start),
        flow_after(marks, words, names, a).images == 0,
        forall|n: int|
            a < n <= b ==> flow_after(marks, words, names, a).lists.len() < (#[trigger] flow_after(
                marks,
                words,
                names,
                n,
            )).lists.len(),
        opens_item(
            marks,
            words,
            names,
            (flow_after(marks, words, names, a).lists.len() + 1) as int,
            b,
        ),
    ensures
        ({
            let d = flow_after(marks, words, names, a).lists.len() + 1;
            let before = items_between(marks, words, names, d as int, a + 1, b);
            let line = flow_after(marks, words, names, b + 1).current;
            match start {
                Some(s) => s + before <= u64::MAX ==> is_fresh_item(
                    line,
                    Some((s + before) as u64),
                ),
                None => is_fresh_item(line, None),
            }
        }),
{
    let d = flow_after(marks, words, names, a).lists.len() + 1;
    assert forall|n: int| a + 1 <= n <= b implies d <= (#[trigger] flow_after(
        marks,
        words,
        names,
        n,
    )).lists.len() by {}
    lemma_items(marks, words, names, d as int, a + 1, b);
    let flow = flow_after(marks, words, names, b);
    assert(flow_after(marks, words, names, a + 1).lists[d - 1] == start);
    an_item_carries_the_marker_of_its_list(flow, names, words[b]);
}

/// A list leaves the markers of the lists around it as they were: once it is
/// closed, they go on where they stopped.
pub proof fn a_list_leaves_those_around_it_alone(
    marks: Seq<Mark>,
    words: Seq<WordText>,
    names: Seq<Seq<char>>,
    a: int,
    b: int,
)
    requires
        // Event a opens the list and event b closes it.
        0 <= a < b < marks.len(),
        marks[a] == Some((true, Kind::List)),
        marks[b] == Some((false, Kind::List)),
        flow_after(marks, words, names, a).images == 0,
        flow_after(marks, words, names, b).images == 0,
        forall|n: int|
            a < n <= b ==> flow_after(marks, words, names, a).lists.len() < (#[trigger] flow_after(
                marks,
                words,
                names,
                n,
            )).lists.len(),
        flow_after(marks, words, names, b).lists.len() == flow_after(
            marks,
            words,
            names,
            a,
        ).lists.len() + 1,
    ensures
        flow_after(marks, words, names, b + 1).lists == flow_after(marks, words, names, a).lists,
{
    let outer = flow_after(marks, words, names, a).lists;
    let d = outer.len() + 1;
    assert forall|n: int| a + 1 <= n <= b implies d <= (#[trigger] flow_after(
        marks,
        words,
        names,
        n,
    )).lists.len() by {}
    lemma_items(marks, words, names, d as int, a + 1, b);
    assert(flow_after(marks, words, names, a + 1).lists.take(d - 1) =~= outer);
    assert(flow_after(marks, words, names, b).lists.take(d - 1) =~= flow_after(
        marks,
        words,
        names,
        b,
    ).lists.drop_last());
}

} // verus!
