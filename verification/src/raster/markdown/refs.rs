//! The image references of a document.

use crate::raster::markdown::events::{parse_marks, parse_words, Kind, Mark, Word};
use crate::strings::{chars_of, same_text};
use vstd::prelude::*;
#[allow(unused_imports)]
use crate::cli::texts;
#[allow(unused_imports)]
use crate::raster::markdown::events::{marks_of, word_texts, words_of, WordText};
#[allow(unused_imports)]
use crate::raster::markdown::model::{back, deeper};

verus! {

/// How deep in images the first `n` events of a document lead.
pub open spec fn image_depth(marks: Seq<Mark>, n: int) -> u32
    decreases n,
{
    if n <= 0 {
        0
    } else {
        let before = image_depth(marks, n - 1);
        match marks[n - 1] {
            Some((true, Kind::Image)) => deeper(before),
            Some((false, Kind::Image)) => back(before),
            _ => before,
        }
    }
}

/// Whether event `i` opens an image that is not inside another one, and has a
/// reference.
pub open spec fn opens_reference(marks: Seq<Mark>, words: Seq<WordText>, i: int) -> bool {
    &&& marks[i] == Some((true, Kind::Image))
    &&& image_depth(marks, i) == 0
    &&& words[i] matches WordText::Target(target) && target.len() > 0
}

/// The references in the first `n` events of a document, each once, in order.
pub open spec fn refs_before(marks: Seq<Mark>, words: Seq<WordText>, n: int) -> Seq<Seq<char>>
    decreases n,
{
    if n <= 0 {
        Seq::empty()
    } else {
        let before = refs_before(marks, words, n - 1);
        if opens_reference(marks, words, n - 1) && !before.contains(words[n - 1]->Target_0) {
            before.push(words[n - 1]->Target_0)
        } else {
            before
        }
    }
}

/// The references of a document.
pub open spec fn refs_of(marks: Seq<Mark>, words: Seq<WordText>) -> Seq<Seq<char>> {
    refs_before(marks, words, marks.len() as int)
}

/// Whether a text is in a list.
fn is_listed(list: &Vec<String>, text: &str) -> (found: bool)
    ensures
        found == texts(list@).contains(text@),
{
    let mut i: usize = 0;
    while i < list.len()
        invariant
            i <= list@.len(),
            forall|k: int| 0 <= k < i ==> #[trigger] texts(list@)[k] != text@,
        decreases list@.len() - i,
    {
        assert(texts(list@)[i as int] == list@[i as int]@);
        if same_text(list[i].as_str(), text) {
            return true;
        }
        i = i + 1;
    }
    false
}

/// The references of a document, from the marks and words of its events.
pub fn image_refs(marks: &Vec<Mark>, words: &Vec<Word>) -> (refs: Vec<String>)
    requires
        marks@.len() == words@.len(),
    ensures
        texts(refs@) == refs_of(marks@, word_texts(words@)),
{
    let mut refs: Vec<String> = Vec::new();
    let mut depth: u32 = 0;
    let mut i: usize = 0;
    assert(texts(refs@) =~= Seq::empty());
    while i < marks.len()
        invariant
            i <= marks@.len(),
            words@.len() == marks@.len(),
            depth == image_depth(marks@, i as int),
            texts(refs@) == refs_before(marks@, word_texts(words@), i as int),
        decreases marks@.len() - i,
    {
        let ghost before = texts(refs@);
        assert(word_texts(words@)[i as int] == words@[i as int]@);
        match marks[i] {
            Some((true, Kind::Image)) => {
                if depth == 0 {
                    match &words[i] {
                        Word::Target(target) => {
                            if chars_of(target.as_str()).len() > 0 && !is_listed(
                                &refs,
                                target.as_str(),
                            ) {
                                refs.push(target.as_str().to_owned());
                                assert(texts(refs@) =~= before.push(target@));
                            }
                        },
                        _ => {},
                    }
                }
                if depth < u32::MAX {
                    depth = depth + 1;
                }
            },
            Some((false, Kind::Image)) => {
                if depth > 0 {
                    depth = depth - 1;
                }
            },
            _ => {},
        }
        i = i + 1;
    }
    refs
}

/// The destinations of a document's images, in document order, each once.
///
/// Left out are empty destinations, and images inside another image's alternative
/// text.
pub fn markdown_image_refs(md: &str) -> (refs: Vec<String>)
    ensures
        texts(refs@) == refs_of(marks_of(md@), words_of(md@)),
{
    let marks: Vec<Mark> = parse_marks(md);
    let words: Vec<Word> = parse_words(md);
    image_refs(&marks, &words)
}

/// No reference is empty, and none comes twice.
pub proof fn references_are_distinct(marks: Seq<Mark>, words: Seq<WordText>, n: int)
    ensures
        refs_before(marks, words, n).no_duplicates(),
        forall|k: int|
            0 <= k < refs_before(marks, words, n).len() ==> (#[trigger] refs_before(
                marks,
                words,
                n,
            )[k]).len() > 0,
    decreases n,
{
    if n > 0 {
        references_are_distinct(marks, words, n - 1);
    }
}

/// The references are those of the images, in the order in which they first come:
/// the target of every image that is not inside another one is there, and each
/// stands behind those of all images that come before it for the first time.
pub proof fn every_image_is_referred_to(marks: Seq<Mark>, words: Seq<WordText>, n: int, i: int)
    requires
        0 <= i < n <= marks.len(),
        marks[i] == Some((true, Kind::Image)),
        image_depth(marks, i) == 0,
        words[i] matches WordText::Target(target) && target.len() > 0,
    ensures
        refs_before(marks, words, n).contains(words[i]->Target_0),
        !refs_before(marks, words, i).contains(words[i]->Target_0) ==> refs_before(
            marks,
            words,
            i,
        ).len() < refs_before(marks, words, n).len() && refs_before(marks, words, n)[refs_before(
            marks,
            words,
            i,
        ).len() as int] == words[i]->Target_0,
        refs_before(marks, words, i).len() <= refs_before(marks, words, n).len(),
        refs_before(marks, words, n).take(refs_before(marks, words, i).len() as int)
            == refs_before(marks, words, i),
    decreases n,
{
    let target = words[i]->Target_0;
    let before = refs_before(marks, words, n - 1);
    let all = refs_before(marks, words, n);
    let start = refs_before(marks, words, i);
    if i < n - 1 {
        every_image_is_referred_to(marks, words, n - 1, i);
        let k = choose|k: int| 0 <= k < before.len() && before[k] == target;
        assert(all[k] == target);
        assert(all.take(start.len() as int) =~= before.take(start.len() as int));
    } else {
        assert(all.take(start.len() as int) =~= start);
        if !before.contains(target) {
            assert(all[before.len() as int] == target);
        }
    }
}

/// Nothing else is referred to.
pub proof fn only_images_are_referred_to(marks: Seq<Mark>, words: Seq<WordText>, n: int, k: int)
    requires
        n <= marks.len(),
        0 <= k < refs_before(marks, words, n).len(),
    ensures
        exists|i: int|
            0 <= i < n && #[trigger] marks[i] == Some((true, Kind::Image)) && words[i]
                == WordText::Target(refs_before(marks, words, n)[k]),
    decreases n,
{
    let before = refs_before(marks, words, n - 1);
    if k < before.len() {
        only_images_are_referred_to(marks, words, n - 1, k);
        let i = choose|i: int|
            0 <= i < n - 1 && #[trigger] marks[i] == Some((true, Kind::Image)) && words[i]
                == WordText::Target(before[k]);
        assert(marks[i] == Some((true, Kind::Image)));
    } else {
        assert(marks[n - 1] == Some((true, Kind::Image)));
    }
}

} // verus!
