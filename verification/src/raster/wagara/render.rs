//! From the name of a motif to a band on paper.

use crate::raster::bitmap::Bitmap;
use crate::raster::wagara::canvas::Canvas;
use crate::raster::wagara::draw::draw;
use crate::raster::wagara::figures::{Figure, Pattern};
use crate::raster::wagara::options::{
    WagaraError, WagaraOptions, MAX_HEIGHT, MAX_SCALE, MIN_HEIGHT, MIN_SCALE,
};
use crate::strings::{same_text, to_small_letters, trim};
use vstd::prelude::*;
#[allow(unused_imports)]
use crate::raster::wagara::canvas::vote;
#[allow(unused_imports)]
use crate::raster::wagara::figures::inked;
#[allow(unused_imports)]
use crate::strings::{small_letters, trimmed};

verus! {

/// The motif that a word stands for, in small letters.
pub open spec fn pattern_of_word(word: Seq<char>) -> Option<Pattern> {
    if word == "asanoha"@ {
        Some(Pattern::Asanoha)
    } else if word == "ichimatsu"@ {
        Some(Pattern::Ichimatsu)
    } else if word == "kanoko"@ {
        Some(Pattern::Kanoko)
    } else if word == "kikkou"@ || word == "kikko"@ {
        Some(Pattern::Kikkou)
    } else if word == "sayagata"@ {
        Some(Pattern::Sayagata)
    } else if word == "seigaiha"@ {
        Some(Pattern::Seigaiha)
    } else if word == "shippou"@ || word == "shippo"@ {
        Some(Pattern::Shippou)
    } else if word == "tatewaku"@ || word == "tachiwaki"@ {
        Some(Pattern::Tatewaku)
    } else if word == "uroko"@ {
        Some(Pattern::Uroko)
    } else if word == "yagasuri"@ || word == "yabane"@ {
        Some(Pattern::Yagasuri)
    } else {
        None
    }
}

/// The motif that a name stands for, in any mix of small and capital letters
/// and with any white space around it.
pub open spec fn pattern_named(name: Seq<char>) -> Option<Pattern> {
    pattern_of_word(small_letters(trimmed(name)))
}

/// Resolve a spelling to its motif.
///
/// Matching is case-insensitive and tolerates the romanisations that differ
/// only in a long vowel: `shippo`/`shippou` and `kikko`/`kikkou` are the same
/// motif. Two motifs also go by a second Japanese name rather than a second
/// spelling — the fletching band is `yagasuri` (矢絣) after the weave or
/// `yabane` (矢羽根) after the feather itself, and 立涌 is read `tatewaku` in
/// modern usage but `tachiwaki` in the court vocabulary the motif comes from.
pub fn canonical(name: &str) -> (pattern: Option<Pattern>)
    ensures
        pattern == pattern_named(name@),
{
    let word: String = to_small_letters(trim(name).as_str());
    let w: &str = word.as_str();
    if same_text(w, "asanoha") {
        Some(Pattern::Asanoha)
    } else if same_text(w, "ichimatsu") {
        Some(Pattern::Ichimatsu)
    } else if same_text(w, "kanoko") {
        Some(Pattern::Kanoko)
    } else if same_text(w, "kikkou") || same_text(w, "kikko") {
        Some(Pattern::Kikkou)
    } else if same_text(w, "sayagata") {
        Some(Pattern::Sayagata)
    } else if same_text(w, "seigaiha") {
        Some(Pattern::Seigaiha)
    } else if same_text(w, "shippou") || same_text(w, "shippo") {
        Some(Pattern::Shippou)
    } else if same_text(w, "tatewaku") || same_text(w, "tachiwaki") {
        Some(Pattern::Tatewaku)
    } else if same_text(w, "uroko") {
        Some(Pattern::Uroko)
    } else if same_text(w, "yagasuri") || same_text(w, "yabane") {
        Some(Pattern::Yagasuri)
    } else {
        None
    }
}

impl Pattern {
    /// The canonical name of a motif.
    pub fn name(self) -> (text: String)
        ensures
            text@ == word_of(self),
            pattern_named(text@) == Some(self),
    {
        proof {
            lemma_names(self);
        }
        match self {
            Pattern::Asanoha => "asanoha".to_owned(),
            Pattern::Ichimatsu => "ichimatsu".to_owned(),
            Pattern::Kanoko => "kanoko".to_owned(),
            Pattern::Kikkou => "kikkou".to_owned(),
            Pattern::Sayagata => "sayagata".to_owned(),
            Pattern::Seigaiha => "seigaiha".to_owned(),
            Pattern::Shippou => "shippou".to_owned(),
            Pattern::Tatewaku => "tatewaku".to_owned(),
            Pattern::Uroko => "uroko".to_owned(),
            Pattern::Yagasuri => "yagasuri".to_owned(),
        }
    }
}

/// The name of a motif.
pub open spec fn word_of(pattern: Pattern) -> Seq<char> {
    match pattern {
        Pattern::Asanoha => "asanoha"@,
        Pattern::Ichimatsu => "ichimatsu"@,
        Pattern::Kanoko => "kanoko"@,
        Pattern::Kikkou => "kikkou"@,
        Pattern::Sayagata => "sayagata"@,
        Pattern::Seigaiha => "seigaiha"@,
        Pattern::Shippou => "shippou"@,
        Pattern::Tatewaku => "tatewaku"@,
        Pattern::Uroko => "uroko"@,
        Pattern::Yagasuri => "yagasuri"@,
    }
}

/// Text of small letters has no white space around it and nothing to make
/// small.
proof fn lemma_small_word(word: Seq<char>)
    requires
        word.len() > 0,
        forall|i: int| 0 <= i < word.len() ==> 'a' <= #[trigger] word[i] <= 'z',
    ensures
        small_letters(trimmed(word)) == word,
{
    assert(!crate::strings::is_white(word[0]));
    assert(!crate::strings::is_white(word.last()));
    assert(trimmed(word) == word);
    assert(small_letters(word) =~= word);
}

proof fn lemma_names(pattern: Pattern)
    ensures
        pattern_named(word_of(pattern)) == Some(pattern),
{
    reveal_strlit("asanoha");
    reveal_strlit("ichimatsu");
    reveal_strlit("kanoko");
    reveal_strlit("kikkou");
    reveal_strlit("kikko");
    reveal_strlit("sayagata");
    reveal_strlit("seigaiha");
    reveal_strlit("shippou");
    reveal_strlit("shippo");
    reveal_strlit("tatewaku");
    reveal_strlit("tachiwaki");
    reveal_strlit("uroko");
    reveal_strlit("yagasuri");
    reveal_strlit("yabane");
    lemma_small_word(word_of(pattern));
    let w = word_of(pattern);
    let sign = (w.len(), w[0], w[1], w[2]);
    assert(pattern_of_word(w) == Some(pattern)) by {
        assert(pattern == Pattern::Asanoha ==> sign == (7nat, 'a', 's', 'a'));
        assert(pattern == Pattern::Ichimatsu ==> sign == (9nat, 'i', 'c', 'h'));
        assert(pattern == Pattern::Kanoko ==> sign == (6nat, 'k', 'a', 'n'));
        assert(pattern == Pattern::Kikkou ==> sign == (6nat, 'k', 'i', 'k'));
        assert(pattern == Pattern::Sayagata ==> sign == (8nat, 's', 'a', 'y'));
        assert(pattern == Pattern::Seigaiha ==> sign == (8nat, 's', 'e', 'i'));
        assert(pattern == Pattern::Shippou ==> sign == (7nat, 's', 'h', 'i'));
        assert(pattern == Pattern::Tatewaku ==> sign == (8nat, 't', 'a', 't'));
        assert(pattern == Pattern::Uroko ==> sign == (5nat, 'u', 'r', 'o'));
        assert(pattern == Pattern::Yagasuri ==> sign == (8nat, 'y', 'a', 'g'));
    }
}

/// Counts that divide the roll so that half a period stays exact.
pub open spec fn motif_counts() -> Seq<int> {
    seq![1, 2, 3, 4, 6, 8, 12, 16, 24, 32, 48, 64, 96, 192]
}

/// How far the motifs are from the desired width in pixels, if there are `n` of
/// them.
pub open spec fn misfit(n: int, desired: int) -> int {
    let off = 384int / n - desired;
    if off < 0 {
        -off
    } else {
        off
    }
}

/// Whether `n` motifs come nearest to the desired width, and fewer do not come
/// as near.
pub open spec fn is_motif_count(n: int, desired: int) -> bool {
    &&& motif_counts().contains(n)
    &&& forall|j: int|
        0 <= j < motif_counts().len() ==> {
            let m = #[trigger] motif_counts()[j];
            misfit(n, desired) <= misfit(m, desired) && (misfit(n, desired) == misfit(m, desired)
                ==> n <= m)
        }
}

/// How many motifs fit across the roll, given a desired motif width in pixels.
///
/// The answer is always a divisor of 384 (and an even one, so a lattice may be
/// offset by half a period and stay periodic), which is what makes a band tile:
/// the pattern's period is `384 / n` px exactly, so the motif at the right edge
/// continues into the one at the left. The desired width is only a target, and
/// the nearest usable count wins.
pub fn motifs_across(desired: i64) -> (n: i64)
    requires
        0 <= desired <= 10_000,
    ensures
        is_motif_count(n as int, desired as int),
{
    let counts: [i64; 14] = [1, 2, 3, 4, 6, 8, 12, 16, 24, 32, 48, 64, 96, 192];
    let ghost all = motif_counts();
    let mut best: i64 = 1;
    let mut least: i64 = if 384 >= desired {
        384 - desired
    } else {
        desired - 384
    };
    let mut i: usize = 1;
    assert(all[0] == 1);
    while i < 14
        invariant
            1 <= i <= 14,
            0 <= desired <= 10_000,
            counts@.len() == 14,
            all == motif_counts(),
            forall|j: int| 0 <= j < 14 ==> #[trigger] counts@[j] == all[j],
            forall|j: int| 0 <= j < 14 ==> 1 <= #[trigger] all[j] <= 192,
            forall|j: int, k: int| 0 <= j < k < 14 ==> #[trigger] all[j] < #[trigger] all[k],
            exists|j: int| 0 <= j < i && #[trigger] all[j] == best,
            1 <= best <= 192,
            least == misfit(best as int, desired as int),
            forall|j: int|
                0 <= j < i ==> {
                    let m = #[trigger] all[j];
                    least <= misfit(m, desired as int) && (least == misfit(m, desired as int)
                        ==> best <= m)
                },
        decreases 14 - i,
    {
        let n: i64 = counts[i];
        let width: i64 = 384 / n;
        let off: i64 = if width >= desired {
            width - desired
        } else {
            desired - width
        };
        assert(n == all[i as int]);
        assert(off == misfit(n as int, desired as int));
        if off < least {
            best = n;
            least = off;
        }
        i = i + 1;
    }
    assert(all.contains(best as int));
    best
}

/// The motif width that is aimed for, in pixels.
pub open spec fn desired_width(pattern: Pattern) -> int {
    match pattern {
        Pattern::Asanoha | Pattern::Sayagata | Pattern::Yagasuri => 64,
        Pattern::Ichimatsu | Pattern::Kikkou | Pattern::Seigaiha => 48,
        Pattern::Shippou => 32,
        Pattern::Kanoko | Pattern::Tatewaku | Pattern::Uroko => 24,
    }
}

/// A number within a range.
pub open spec fn within(n: u32, lo: u32, hi: u32) -> u32 {
    if n < lo {
        lo
    } else if n > hi {
        hi
    } else {
        n
    }
}

/// The band that options ask for: height and scale within their ranges.
pub open spec fn fitted(opts: WagaraOptions) -> WagaraOptions {
    WagaraOptions {
        height: within(opts.height, MIN_HEIGHT, MAX_HEIGHT),
        scale: within(opts.scale, MIN_SCALE, MAX_SCALE),
    }
}

/// Whether a figure is a motif fitted to a band.
pub open spec fn is_figure(fig: Figure, pattern: Pattern, opts: WagaraOptions) -> bool {
    &&& fig.pattern == pattern
    &&& fig.h == 3 * opts.height
    &&& is_motif_count(fig.n as int, desired_width(pattern) * opts.scale)
    &&& fig.n * fig.pitch == 1152
}

/// How many of the nine samples of a pixel a figure inks.
pub open spec fn figure_votes(fig: Figure, x: int, y: int) -> int {
    vote(inked(fig, 6 * x + 1, 6 * y + 1)) + vote(inked(fig, 6 * x + 3, 6 * y + 1)) + vote(
        inked(fig, 6 * x + 5, 6 * y + 1),
    ) + vote(inked(fig, 6 * x + 1, 6 * y + 3)) + vote(inked(fig, 6 * x + 3, 6 * y + 3)) + vote(
        inked(fig, 6 * x + 5, 6 * y + 3),
    ) + vote(inked(fig, 6 * x + 1, 6 * y + 5)) + vote(inked(fig, 6 * x + 3, 6 * y + 5)) + vote(
        inked(fig, 6 * x + 5, 6 * y + 5),
    )
}

/// Whether `b` is the band of a motif: a pixel is black when at least half its
/// samples are inked.
pub open spec fn is_band(pattern: Pattern, opts: WagaraOptions, b: &Bitmap) -> bool {
    &&& b@.len() == opts.height
    &&& exists|fig: Figure| #[trigger]
        is_figure(fig, pattern, opts) && forall|x: int, y: int|
            0 <= x < 384 && 0 <= y < opts.height ==> #[trigger] b.black(x, y) == (2 * figure_votes(
                fig,
                x,
                y,
            ) >= 9)
}

/// There are between two and sixteen motifs across a band.
proof fn lemma_count_range(n: int, desired: int)
    requires
        24 <= desired <= 256,
        is_motif_count(n, desired),
    ensures
        n == 2 || n == 3 || n == 4 || n == 6 || n == 8 || n == 12 || n == 16,
        desired <= 96 ==> n >= 4,
{
    let all = motif_counts();
    let j = choose|j: int| 0 <= j < all.len() && all[j] == n;
    assert(all[1] == 2);
    assert(all[7] == 16);
    assert(all[3] == 4);
    assert(misfit(n, desired) <= misfit(2, desired));
    assert(misfit(n, desired) <= misfit(16, desired));
    assert(misfit(n, desired) <= misfit(4, desired));
    assert(384int / 16 == 24 && 384int / 2 == 192 && 384int / 4 == 96 && 384int / 3 == 128
        && 384int / 1 == 384);
    assert(384int / 24 == 16 && 384int / 32 == 12 && 384int / 48 == 8 && 384int / 64 == 6 && 384int
        / 96 == 4 && 384int / 192 == 2);
}

/// Render `pattern` as a full-width decorative band.
///
/// Out-of-range options are clamped rather than rejected: [`WagaraOptions`] is
/// public, so a caller can build one that would have been turned down, and a
/// separator is not worth a panic.
pub fn render_wagara(pattern: &str, opts: WagaraOptions) -> (r: Result<Bitmap, WagaraError>)
    ensures
        match pattern_named(pattern@) {
            None => r matches Err(WagaraError::UnknownPattern(name)) && name@ == trimmed(pattern@),
            Some(p) => r matches Ok(b) && is_band(p, fitted(opts), &b),
        },
{
    let motif: Pattern = match canonical(pattern) {
        Some(p) => p,
        None => {
            return Err(WagaraError::UnknownPattern(trim(pattern)));
        },
    };
    let height: u32 = if opts.height < MIN_HEIGHT {
        MIN_HEIGHT
    } else if opts.height > MAX_HEIGHT {
        MAX_HEIGHT
    } else {
        opts.height
    };
    let scale: u32 = if opts.scale < MIN_SCALE {
        MIN_SCALE
    } else if opts.scale > MAX_SCALE {
        MAX_SCALE
    } else {
        opts.scale
    };
    let desired: i64 = match motif {
        Pattern::Asanoha | Pattern::Sayagata | Pattern::Yagasuri => 64,
        Pattern::Ichimatsu | Pattern::Kikkou | Pattern::Seigaiha => 48,
        Pattern::Shippou => 32,
        Pattern::Kanoko | Pattern::Tatewaku | Pattern::Uroko => 24,
    };
    proof {
        assert(desired == desired_width(motif));
        assert(24 <= desired * scale <= 256 && (desired == 24 ==> desired * scale <= 96))
            by (nonlinear_arith)
            requires
                24 <= desired <= 64,
                1 <= scale <= 4,
        ;
    }
    let n: i64 = motifs_across(desired * (scale as i64));
    proof {
        lemma_count_range(n as int, desired * scale);
    }
    let pitch: i64 = 1152 / n;
    let fig: Figure = Figure { pattern: motif, n, pitch, h: 3 * (height as i64) };
    assert(n * pitch == 1152) by (nonlinear_arith)
        requires
            pitch == 1152i64 / n,
            n == 2 || n == 3 || n == 4 || n == 6 || n == 8 || n == 12 || n == 16,
    ;
    assert(pitch % 6 == 0 && 72 <= pitch <= 576 && (n >= 4 ==> pitch <= 288));
    assert(is_figure(fig, motif, fitted(opts)));
    let canvas: Canvas = draw(fig);
    let ghost surface = canvas;
    let b: Bitmap = canvas.into_bitmap();
    proof {
        assert forall|x: int, y: int| 0 <= x < 384 && 0 <= y < height implies #[trigger] b.black(
            x,
            y,
        ) == (2 * figure_votes(fig, x, y) >= 9) by {
            assert(surface.votes(x, y) == figure_votes(fig, x, y));
        }
    }
    Ok(b)
}

/// Long vowels may be written short, two motifs go by a second name, and neither
/// capitals nor white space around a name matter.
pub proof fn second_names_stand_for_the_same_motif()
    ensures
        pattern_named("kikko"@) == Some(Pattern::Kikkou),
        pattern_named("shippo"@) == Some(Pattern::Shippou),
        pattern_named("tachiwaki"@) == Some(Pattern::Tatewaku),
        pattern_named("yabane"@) == Some(Pattern::Yagasuri),
        forall|a: Seq<char>, b: Seq<char>|
            small_letters(trimmed(a)) == small_letters(trimmed(b)) ==> #[trigger] pattern_named(a)
                == #[trigger] pattern_named(b),
{
    lemma_second_words();
    reveal_strlit("kikko");
    reveal_strlit("shippo");
    reveal_strlit("tachiwaki");
    reveal_strlit("yabane");
    lemma_small_word("kikko"@);
    lemma_small_word("shippo"@);
    lemma_small_word("tachiwaki"@);
    lemma_small_word("yabane"@);
}

proof fn lemma_second_words()
    ensures
        pattern_of_word("kikko"@) == Some(Pattern::Kikkou),
        pattern_of_word("shippo"@) == Some(Pattern::Shippou),
        pattern_of_word("tachiwaki"@) == Some(Pattern::Tatewaku),
        pattern_of_word("yabane"@) == Some(Pattern::Yagasuri),
{
    reveal_strlit("asanoha");
    reveal_strlit("ichimatsu");
    reveal_strlit("kanoko");
    reveal_strlit("kikkou");
    reveal_strlit("kikko");
    reveal_strlit("sayagata");
    reveal_strlit("seigaiha");
    reveal_strlit("shippou");
    reveal_strlit("shippo");
    reveal_strlit("tatewaku");
    reveal_strlit("tachiwaki");
    reveal_strlit("uroko");
    reveal_strlit("yagasuri");
    reveal_strlit("yabane");
    assert("kikko"@.len() == 5 && "kikko"@[0] == 'k' && "uroko"@[0] == 'u');
    assert("shippo"@.len() == 6 && "shippo"@[0] == 's');
    assert("kanoko"@[0] == 'k' && "kikkou"@[0] == 'k');
    assert("tachiwaki"@.len() == 9 && "tachiwaki"@[0] == 't' && "ichimatsu"@[0] == 'i');
    assert("yabane"@.len() == 6 && "yabane"@[0] == 'y');
}

proof fn lemma_all_counts(m: int)
    requires
        1 <= m <= 192,
        384int % (2 * m) == 0,
    ensures
        exists|j: int| 0 <= j < motif_counts().len() && #[trigger] motif_counts()[j] == m,
{
    let q = 384int / (2 * m);
    assert(m * q == 192) by (nonlinear_arith)
        requires
            m >= 1,
            384int % (2 * m) == 0,
            q == 384int / (2 * m),
    ;
    assert(m <= 13 || q <= 13) by (nonlinear_arith)
        requires
            m * q == 192,
            m >= 1,
    ;
    assert(q >= 1) by (nonlinear_arith)
        requires
            m * q == 192,
            m >= 1,
    ;
    assert(m == 1 || m == 2 || m == 3 || m == 4 || m == 6 || m == 8 || m == 12 || m == 16 || m == 24
        || m == 32 || m == 48 || m == 64 || m == 96 || m == 192) by {
        if m <= 13 {
            assert(m * q == 5 * q || m != 5);
            assert(m * q == 7 * q || m != 7);
            assert(m * q == 9 * q || m != 9);
            assert(m * q == 10 * q || m != 10);
            assert(m * q == 11 * q || m != 11);
            assert(m * q == 13 * q || m != 13);
        } else {
            assert(q == 1 ==> m * q == m * 1);
            assert(q == 2 ==> m * q == m * 2);
            assert(q == 3 ==> m * q == m * 3);
            assert(q == 4 ==> m * q == m * 4);
            assert(q == 5 ==> m * q == m * 5);
            assert(q == 6 ==> m * q == m * 6);
            assert(q == 7 ==> m * q == m * 7);
            assert(q == 8 ==> m * q == m * 8);
            assert(q == 9 ==> m * q == m * 9);
            assert(q == 10 ==> m * q == m * 10);
            assert(q == 11 ==> m * q == m * 11);
            assert(q == 12 ==> m * q == m * 12);
            assert(q == 13 ==> m * q == m * 13);
        }
    }
    let all = motif_counts();
    assert(all[0] == 1 && all[1] == 2 && all[2] == 3 && all[3] == 4 && all[4] == 6 && all[5] == 8
        && all[6] == 12 && all[7] == 16 && all[8] == 24 && all[9] == 32 && all[10] == 48 && all[11]
        == 64 && all[12] == 96 && all[13] == 192);
}

/// A whole number of motifs fills the roll, each an even number of pixels wide, and
/// no other such number comes nearer to the width that is aimed for.
pub proof fn whole_motifs_fill_the_roll(n: int, desired: int, m: int)
    requires
        is_motif_count(n, desired),
        1 <= m <= 192,
        384int % (2 * m) == 0,
    ensures
        n >= 1,
        n * (384int / n) == 384,
        (384int / n) % 2 == 0,
        ({
            let width = 384int / n;
            let other = 384int / m;
            // Neither above nor below is another width nearer.
            &&& other >= desired ==> desired - (other - desired) <= width <= other
            &&& other <= desired ==> other <= width <= desired + (desired - other)
        }),
{
    lemma_all_counts(m);
    let all = motif_counts();
    let k = choose|k: int| 0 <= k < all.len() && all[k] == n;
    assert(n == 1 || n == 2 || n == 3 || n == 4 || n == 6 || n == 8 || n == 12 || n == 16 || n == 24
        || n == 32 || n == 48 || n == 64 || n == 96 || n == 192);
    assert(n * (384int / n) == 384) by (nonlinear_arith)
        requires
            n == 1 || n == 2 || n == 3 || n == 4 || n == 6 || n == 8 || n == 12 || n == 16 || n
                == 24 || n == 32 || n == 48 || n == 64 || n == 96 || n == 192,
    ;
    let j = choose|j: int| 0 <= j < all.len() && #[trigger] all[j] == m;
    assert(misfit(n, desired) <= misfit(all[j], desired));
}

/// A pixel is black as soon as most of its nine samples are inked, and not before.
pub proof fn a_pixel_goes_with_most_of_its_samples(
    pattern: Pattern,
    opts: WagaraOptions,
    b: &Bitmap,
)
    requires
        is_band(pattern, opts, b),
    ensures
        exists|fig: Figure| #[trigger]
            is_figure(fig, pattern, opts) && forall|x: int, y: int|
                0 <= x < 384 && 0 <= y < opts.height ==> #[trigger] b.black(x, y) == (count_of(
                    samples_of(fig, x, y),
                ) > 4),
{
    let fig = choose|fig: Figure| #[trigger]
        is_figure(fig, pattern, opts) && forall|x: int, y: int|
            0 <= x < 384 && 0 <= y < opts.height ==> #[trigger] b.black(x, y) == (2 * figure_votes(
                fig,
                x,
                y,
            ) >= 9);
    assert forall|x: int, y: int| 0 <= x < 384 && 0 <= y < opts.height implies #[trigger] b.black(
        x,
        y,
    ) == (count_of(samples_of(fig, x, y)) > 4) by {
        lemma_votes(fig, x, y);
    }
}

/// Whether the nine samples of a pixel are inked, row by row: they stand at the
/// middles of the cells of a grid of three by three, in sixths of a pixel.
pub open spec fn samples_of(fig: Figure, x: int, y: int) -> Seq<bool> {
    Seq::new(9, |k: int| inked(fig, 6 * x + 2 * (k % 3) + 1, 6 * y + 2 * (k / 3) + 1))
}

/// How many of a list hold.
pub open spec fn count_of(held: Seq<bool>) -> int
    decreases held.len(),
{
    if held.len() == 0 {
        0
    } else {
        count_of(held.drop_last()) + if held.last() {
            1int
        } else {
            0
        }
    }
}

proof fn lemma_votes(fig: Figure, x: int, y: int)
    ensures
        count_of(samples_of(fig, x, y)) == figure_votes(fig, x, y),
{
    let s = samples_of(fig, x, y);
    reveal_with_fuel(count_of, 10);
    assert(s.drop_last() =~= s.take(8));
    assert(s.take(8).drop_last() =~= s.take(7));
    assert(s.take(7).drop_last() =~= s.take(6));
    assert(s.take(6).drop_last() =~= s.take(5));
    assert(s.take(5).drop_last() =~= s.take(4));
    assert(s.take(4).drop_last() =~= s.take(3));
    assert(s.take(3).drop_last() =~= s.take(2));
    assert(s.take(2).drop_last() =~= s.take(1));
    assert(s.take(1).drop_last() =~= s.take(0));
}

} // verus!
