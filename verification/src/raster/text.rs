//! Plain text → 1-bit bitmap rendering: a thin layer over the typesetter.

use crate::raster::bitmap::Bitmap;
use crate::raster::faces::{Faces, FontStyle};
use crate::raster::rich::{RichLine, Span, Style};
use crate::raster::typeset::render_rich;
use crate::strings::{chars_of, split_chars, text_of};
use vstd::prelude::*;
#[allow(unused_imports)]
use crate::raster::rich::{line_texts, rows_of, span_texts, LineText, SpanText};
#[allow(unused_imports)]
use crate::raster::typeset::shows;
#[allow(unused_imports)]
use crate::strings::{char_lists, joined, pieces, pieces_make_up_the_text};

verus! {

/// What character `i` of a text becomes: a tab four spaces, a carriage return a
/// newline unless there is one behind it.
pub open spec fn normal_piece(text: Seq<char>, i: int) -> Seq<char> {
    if text[i] == '\t' {
        seq![' ', ' ', ' ', ' ']
    } else if text[i] == '\r' {
        if i + 1 < text.len() && text[i + 1] == '\n' {
            Seq::empty()
        } else {
            seq!['\n']
        }
    } else {
        seq![text[i]]
    }
}

/// The first `n` characters of a text with line ends and tabs made uniform.
pub open spec fn normal_start(text: Seq<char>, n: int) -> Seq<char>
    decreases n,
{
    if n <= 0 {
        Seq::empty()
    } else {
        normal_start(text, n - 1) + normal_piece(text, n - 1)
    }
}

/// A text with line ends and tabs made uniform.
pub open spec fn normalized(text: Seq<char>) -> Seq<char> {
    normal_start(text, text.len() as int)
}

/// `\r\n` and bare `\r` become `\n`, and `\t` expands to four spaces.
pub fn normalize(text: &str) -> (out: Vec<char>)
    ensures
        out@ == normalized(text@),
{
    let t: Vec<char> = chars_of(text);
    let mut out: Vec<char> = Vec::new();
    let mut i: usize = 0;
    while i < t.len()
        invariant
            i <= t@.len(),
            t@ == text@,
            out@ == normal_start(text@, i as int),
        decreases t@.len() - i,
    {
        let c: char = t[i];
        let ghost before = out@;
        if c == '\t' {
            out.push(' ');
            out.push(' ');
            out.push(' ');
            out.push(' ');
        } else if c == '\r' {
            if !(i + 1 < t.len() && t[i + 1] == '\n') {
                out.push('\n');
            }
        } else {
            out.push(c);
        }
        assert(out@ =~= before + normal_piece(text@, i as int));
        i = i + 1;
    }
    out
}

/// One line of text in one style.
pub open spec fn plain_line(text: Seq<char>, style: Style, indent: u32) -> LineText {
    LineText { spans: seq![SpanText { text, style }], indent }
}

/// One line of text in one style.
pub fn make_line(text: String, style: Style, indent: u32) -> (line: RichLine)
    ensures
        line@ == plain_line(text@, style, indent),
{
    let mut spans: Vec<Span> = Vec::new();
    spans.push(Span { text, style });
    let line: RichLine = RichLine { spans, indent };
    assert(line@.spans =~= seq![SpanText { text: text@, style }]);
    line
}

/// The lines of a text: one for each piece between newlines, none for no text.
pub open spec fn text_lines(text: Seq<char>, size: u32) -> Seq<LineText> {
    let parts = pieces(normalized(text), '\n');
    if normalized(text).len() == 0 {
        Seq::empty()
    } else {
        Seq::new(
            parts.len(),
            |i: int|
                plain_line(
                    parts[i],
                    Style { font: FontStyle::Regular, size, strike: false },
                    0,
                ),
        )
    }
}

/// Render text to a 1-bit bitmap: greedy word-wrap at 384 px, left-aligned.
///
/// Line height is 1.3 × the size, which is in 64ths of a pixel; `\n` forces a
/// hard break. Overlong single words break mid-word. Empty text yields a
/// zero-height bitmap.
///
/// Input is normalized first: `\r\n` and bare `\r` become `\n`, and `\t`
/// expands to four spaces (predictable with a monospace font).
pub fn render_text(text: &str, size: u32, faces: &Faces) -> (out: Bitmap)
    ensures
        shows(&out, faces, rows_of(faces, text_lines(text@, size))),
{
    let normal: Vec<char> = normalize(text);
    let mut lines: Vec<RichLine> = Vec::new();
    if normal.len() == 0 {
        assert(line_texts(lines@) =~= text_lines(text@, size));
        return render_rich(&lines, faces);
    }
    let parts: Vec<Vec<char>> = split_chars(normal.as_slice(), '\n');
    let style: Style = Style::new(FontStyle::Regular, size);
    let mut i: usize = 0;
    assert(line_texts(lines@) =~= text_lines(text@, size).take(0));
    while i < parts.len()
        invariant
            i <= parts@.len(),
            char_lists(parts@) == pieces(normalized(text@), '\n'),
            normalized(text@).len() > 0,
            style == (Style { font: FontStyle::Regular, size, strike: false }),
            line_texts(lines@) == text_lines(text@, size).take(i as int),
        decreases parts@.len() - i,
    {
        let ghost before = line_texts(lines@);
        let line: RichLine = make_line(text_of(parts[i].as_slice()), style, 0);
        let ghost model = line@;
        lines.push(line);
        proof {
            assert(line_texts(lines@) =~= before.push(model));
            assert(parts@[i as int]@ == char_lists(parts@)[i as int]);
            assert(model == text_lines(text@, size)[i as int]);
            assert(line_texts(lines@) =~= text_lines(text@, size).take(i + 1));
        }
        i = i + 1;
    }
    assert(line_texts(lines@) =~= text_lines(text@, size));
    render_rich(&lines, faces)
}

/// A text with `\r\n` for its newlines.
pub open spec fn with_crlf(text: Seq<char>) -> Seq<char>
    decreases text.len(),
{
    if text.len() == 0 {
        Seq::empty()
    } else if text.last() == '\n' {
        with_crlf(text.drop_last()) + seq!['\r', '\n']
    } else {
        with_crlf(text.drop_last()) + seq![text.last()]
    }
}

/// A text with `\r` for its newlines.
pub open spec fn with_cr(text: Seq<char>) -> Seq<char> {
    text.map_values(
        |c: char|
            if c == '\n' {
                '\r'
            } else {
                c
            },
    )
}

proof fn lemma_start_of_longer(text: Seq<char>, more: Seq<char>, n: int)
    requires
        0 <= n <= text.len(),
        n < text.len() || n == 0 || text.last() != '\r',
    ensures
        normal_start(text + more, n) == normal_start(text, n),
    decreases n,
{
    if n > 0 {
        lemma_start_of_longer(text, more, n - 1);
        assert((text + more)[n - 1] == text[n - 1]);
        if n < text.len() {
            assert((text + more)[n] == text[n]);
        }
    }
}

proof fn lemma_crlf_ends_like(text: Seq<char>)
    requires
        !text.contains('\r'),
    ensures
        text.len() > 0 ==> with_crlf(text).len() > 0 && with_crlf(text).last() != '\r',
        text.len() == 0 ==> with_crlf(text).len() == 0,
{
    if text.len() > 0 {
        assert(text.contains(text.last()));
    }
}

/// How lines end does not matter: a text prints the same with `\r\n` or a bare
/// `\r` in place of each newline.
pub proof fn line_ends_print_alike(text: Seq<char>, size: u32)
    requires
        !text.contains('\r'),
    ensures
        text_lines(with_crlf(text), size) == text_lines(text, size),
        text_lines(with_cr(text), size) == text_lines(text, size),
{
    lemma_crlf_is_newline(text);
    lemma_cr_is_newline(text, text.len() as int);
    assert(with_cr(text).len() == text.len());
}

proof fn lemma_cr_is_newline(text: Seq<char>, n: int)
    requires
        !text.contains('\r'),
        0 <= n <= text.len(),
    ensures
        normal_start(with_cr(text), n) == normal_start(text, n),
    decreases n,
{
    if n > 0 {
        lemma_cr_is_newline(text, n - 1);
        assert(text.contains(text[n - 1]));
        assert(n < text.len() ==> with_cr(text)[n] != '\n');
    }
}

proof fn lemma_crlf_is_newline(text: Seq<char>)
    requires
        !text.contains('\r'),
    ensures
        normalized(with_crlf(text)) == normalized(text),
    decreases text.len(),
{
    if text.len() > 0 {
        let start = text.drop_last();
        assert forall|c: char| start.contains(c) implies text.contains(c) by {
            let i = choose|i: int| 0 <= i < start.len() && start[i] == c;
            assert(text[i] == c);
        }
        lemma_crlf_is_newline(start);
        lemma_crlf_ends_like(start);
        assert(text.contains(text.last()));
        let one = seq![text.last()];
        assert(text =~= start + one);
        if start.len() > 0 {
            assert(start.contains(start.last()));
        }
        lemma_start_of_longer(start, one, start.len() as int);
        let long = with_crlf(start);
        if text.last() == '\n' {
            let tail = seq!['\r', '\n'];
            lemma_start_of_longer(long, tail, long.len() as int);
            let both = long + tail;
            let n = long.len() as int;
            assert(both[n] == '\r' && both[n + 1] == '\n');
            assert(normal_start(both, n + 1) =~= normal_start(both, n));
            assert(normalized(both) == normal_start(both, n + 1) + seq!['\n']);
        } else {
            lemma_start_of_longer(long, one, long.len() as int);
            assert((long + one)[long.len() as int] == text.last());
        }
    }
}

proof fn lemma_uniform(text: Seq<char>, n: int, i: int)
    requires
        0 <= n <= text.len(),
        0 <= i < normal_start(text, n).len(),
    ensures
        normal_start(text, n)[i] != '\r',
        normal_start(text, n)[i] != '\t',
    decreases n,
{
    if i < normal_start(text, n - 1).len() {
        lemma_uniform(text, n - 1, i);
    }
}

/// Normalizing leaves no carriage return and no tab.
pub proof fn normal_text_is_uniform(text: Seq<char>, i: int)
    requires
        0 <= i < normalized(text).len(),
    ensures
        normalized(text)[i] != '\r',
        normalized(text)[i] != '\t',
{
    lemma_uniform(text, text.len() as int, i);
}

/// Normalizing goes character by character: a tab becomes four spaces, a carriage
/// return a newline, a newline behind a carriage return goes with it, and any
/// other character stays.
pub proof fn normalizing_goes_by_characters(text: Seq<char>, c: char)
    ensures
        c == '\t' ==> normalized(text.push(c)) == normalized(text) + seq![' ', ' ', ' ', ' '],
        c == '\r' ==> normalized(text.push(c)) == normalized(text).push('\n'),
        c == '\n' && text.len() > 0 && text.last() == '\r' ==> normalized(text.push(c))
            == normalized(text),
        c == '\n' && (text.len() == 0 || text.last() != '\r') ==> normalized(text.push(c))
            == normalized(text).push('\n'),
        c != '\t' && c != '\r' && c != '\n' ==> normalized(text.push(c)) == normalized(text).push(c),
        normalized(Seq::<char>::empty()) == Seq::<char>::empty(),
{
    let n = text.len() as int;
    let more = text.push(c);
    if c == '\n' && n > 0 && text.last() == '\r' {
        lemma_pushed(text, c, n - 1);
        assert(normal_piece(more, n - 1) == Seq::<char>::empty());
        assert(normal_piece(text, n - 1) == seq!['\n']);
        assert(normal_start(more, n) =~= normal_start(text, n - 1));
        assert(normal_piece(more, n) == seq!['\n']);
        assert(normalized(more) =~= normalized(text));
    } else {
        lemma_pushed(text, c, n);
        if n > 0 {
            assert(more[n - 1] == text[n - 1]);
        }
        assert(normalized(more) =~= normalized(text) + normal_piece(more, n));
    }
}

proof fn lemma_pushed(text: Seq<char>, c: char, n: int)
    requires
        0 <= n <= text.len(),
        n == text.len() && n > 0 ==> !(c == '\n' && text.last() == '\r'),
    ensures
        normal_start(text.push(c), n) == normal_start(text, n),
    decreases n,
{
    if n > 0 {
        lemma_pushed(text, c, n - 1);
        assert(text.push(c)[n - 1] == text[n - 1]);
        if n < text.len() {
            assert(text.push(c)[n] == text[n]);
        }
    }
}

/// A text prints as its lines: with newlines between them they are the text
/// again, and each is set in the regular face at the size asked for, without an
/// indent.
pub proof fn text_prints_line_by_line(text: Seq<char>, size: u32)
    requires
        normalized(text).len() > 0,
    ensures
        ({
            let lines = text_lines(text, size);
            let parts = Seq::new(lines.len(), |i: int| lines[i].spans[0].text);
            &&& joined(parts, '\n') == normalized(text)
            &&& forall|i: int|
                0 <= i < lines.len() ==> {
                    let line = #[trigger] lines[i];
                    &&& line.indent == 0
                    &&& line.spans.len() == 1
                    &&& !line.spans[0].text.contains('\n')
                    &&& line.spans[0].style == (Style {
                        font: FontStyle::Regular,
                        size,
                        strike: false,
                    })
                }
        }),
{
    let lines = text_lines(text, size);
    let parts = Seq::new(lines.len(), |i: int| lines[i].spans[0].text);
    pieces_make_up_the_text(normalized(text), '\n');
    assert(parts =~= pieces(normalized(text), '\n'));
}

} // verus!
