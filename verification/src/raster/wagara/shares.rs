//! How much of a band is ink.

use crate::raster::bitmap::Bitmap;
use crate::raster::wagara::figures::{Figure, Pattern};
use vstd::prelude::*;
#[allow(unused_imports)]
use crate::raster::wagara::bands::{
    is_dark, is_spot, lemma_checks, lemma_feathers, lemma_scales, sample, usual, usual_checks,
    usual_feathers, usual_scales,
};
#[allow(unused_imports)]
use crate::raster::wagara::canvas::vote;
#[allow(unused_imports)]
use crate::raster::wagara::figures::is_odd;
#[allow(unused_imports)]
use crate::raster::wagara::options::default_options;
#[allow(unused_imports)]
use crate::raster::wagara::render::is_band;
#[allow(unused_imports)]
use crate::raster::wagara::tones::lemma_shown;

verus! {

/// How many numbers from `a` on and below `b` have a property.
pub open spec fn tally(f: spec_fn(int) -> bool, a: int, b: int) -> int
    decreases b - a,
{
    if a >= b {
        0
    } else {
        tally(f, a, b - 1) + vote(f(b - 1))
    }
}

/// How many pixels are black in the rows from `from` on and above `to`.
pub open spec fn ink_between(b: &Bitmap, from: int, to: int) -> int
    decreases to - from,
{
    if from >= to {
        0
    } else {
        ink_between(b, from, to - 1) + tally(|x: int| b.black(x, to - 1), 0, 384)
    }
}

/// How many pixels of a bitmap are black.
pub open spec fn ink_of(b: &Bitmap) -> int {
    ink_between(b, 0, b@.len() as int)
}

proof fn lemma_same(f: spec_fn(int) -> bool, g: spec_fn(int) -> bool, a: int, b: int, d: int)
    requires
        forall|x: int| a <= x < b ==> #[trigger] f(x) == g(x + d),
    ensures
        tally(f, a, b) == tally(g, a + d, b + d),
    decreases b - a,
{
    if a < b {
        lemma_same(f, g, a, b - 1, d);
        assert(f(b - 1) == g(b - 1 + d));
        assert(b + d - 1 == b - 1 + d);
    }
}

proof fn lemma_opposite(f: spec_fn(int) -> bool, g: spec_fn(int) -> bool, a: int, b: int, d: int)
    requires
        a <= b,
        forall|x: int| a <= x < b ==> #[trigger] f(x) == !g(x + d),
    ensures
        tally(f, a, b) + tally(g, a + d, b + d) == b - a,
    decreases b - a,
{
    if a < b {
        lemma_opposite(f, g, a, b - 1, d);
        assert(f(b - 1) == !g(b - 1 + d));
        assert(b + d - 1 == b - 1 + d);
    }
}

proof fn lemma_none(f: spec_fn(int) -> bool, a: int, b: int)
    requires
        forall|x: int| a <= x < b ==> !#[trigger] f(x),
    ensures
        tally(f, a, b) == 0,
    decreases b - a,
{
    if a < b {
        lemma_none(f, a, b - 1);
        assert(!f(b - 1));
    }
}

proof fn lemma_parts(f: spec_fn(int) -> bool, a: int, m: int, b: int)
    requires
        a <= m <= b,
    ensures
        tally(f, a, b) == tally(f, a, m) + tally(f, m, b),
    decreases b - m,
{
    if m < b {
        lemma_parts(f, a, m, b - 1);
    }
}

/// A run of blocks with one count each.
proof fn lemma_blocks(f: spec_fn(int) -> bool, block: int, each: int, n: int)
    requires
        block > 0,
        n >= 0,
        forall|k: int| 0 <= k < n ==> #[trigger] tally(f, k * block, k * block + block) == each,
    ensures
        tally(f, 0, n * block) == n * each,
    decreases n,
{
    if n > 0 {
        lemma_blocks(f, block, each, n - 1);
        let k = n - 1;
        assert(tally(f, k * block, k * block + block) == each);
        assert(n * block == k * block + block && n * each == k * each + each && 0 <= k * block)
            by (nonlinear_arith)
            requires
                k == n - 1,
                k >= 0,
                block > 0,
        ;
        lemma_parts(f, 0, k * block, n * block);
    } else {
        assert(0 * block == 0 && 0 * each == 0);
    }
}

/// The row `y` of a picture.
spec fn row_of(fig: Figure, y: int) -> spec_fn(int) -> bool {
    |x: int| is_dark(fig, x, y)
}

/// Two pixels whose samples are opposite are opposite.
proof fn lemma_opposite_pixels(fig: Figure, x: int, y: int, u: int, v: int, turned: bool)
    requires
        forall|a: int, b: int|
            is_spot(a) && is_spot(b) ==> #[trigger] sample(fig, x, y, a, b) == !sample(
                fig,
                u,
                v,
                a,
                if turned {
                    6 - b
                } else {
                    b
                },
            ),
    ensures
        is_dark(fig, x, y) == !is_dark(fig, u, v),
{
    assert(sample(fig, x, y, 1, 1) == !sample(fig, u, v, 1, if turned { 5 } else { 1 }));
    assert(sample(fig, x, y, 3, 1) == !sample(fig, u, v, 3, if turned { 5 } else { 1 }));
    assert(sample(fig, x, y, 5, 1) == !sample(fig, u, v, 5, if turned { 5 } else { 1 }));
    assert(sample(fig, x, y, 1, 3) == !sample(fig, u, v, 1, 3));
    assert(sample(fig, x, y, 3, 3) == !sample(fig, u, v, 3, 3));
    assert(sample(fig, x, y, 5, 3) == !sample(fig, u, v, 5, 3));
    assert(sample(fig, x, y, 1, 5) == !sample(fig, u, v, 1, if turned { 1 } else { 5 }));
    assert(sample(fig, x, y, 3, 5) == !sample(fig, u, v, 3, if turned { 1 } else { 5 }));
    assert(sample(fig, x, y, 5, 5) == !sample(fig, u, v, 5, if turned { 1 } else { 5 }));
}

/// A pixel without an inked sample is white.
proof fn lemma_blank_pixel(fig: Figure, x: int, y: int)
    requires
        forall|a: int, b: int| is_spot(a) && is_spot(b) ==> !#[trigger] sample(fig, x, y, a, b),
    ensures
        !is_dark(fig, x, y),
{
    assert(!sample(fig, x, y, 1, 1) && !sample(fig, x, y, 3, 1) && !sample(fig, x, y, 5, 1));
    assert(!sample(fig, x, y, 1, 3) && !sample(fig, x, y, 3, 3) && !sample(fig, x, y, 5, 3));
    assert(!sample(fig, x, y, 1, 5) && !sample(fig, x, y, 3, 5) && !sample(fig, x, y, 5, 5));
}

/// The checkerboard is black where it is white 24 columns on.
proof fn lemma_checks_row(y: int)
    ensures
        tally(row_of(usual(Pattern::Ichimatsu), y), 0, 384) == 192,
{
    let fig = usual(Pattern::Ichimatsu);
    let f = row_of(fig, y);
    assert forall|x: int| #[trigger] f(x) == !f(x + 24) by {
        assert forall|a: int, b: int| is_spot(a) && is_spot(b) implies #[trigger] sample(
            fig,
            x,
            y,
            a,
            b,
        ) == !sample(fig, x + 24, y, a, b) by {
            lemma_checks(6 * x + a, 6 * y + b);
            lemma_checks(6 * x + a + 144, 6 * y + b);
            assert(6 * (x + 24) + a == 6 * x + a + 144);
        }
        lemma_opposite_pixels(fig, x, y, x + 24, y, false);
    }
    assert forall|k: int| 0 <= k < 8 implies #[trigger] tally(f, k * 48, k * 48 + 48) == 24 by {
        lemma_opposite(f, f, k * 48, k * 48 + 24, 24);
        lemma_parts(f, k * 48, k * 48 + 24, k * 48 + 48);
    }
    lemma_blocks(f, 48, 24, 8);
}

/// A feather's sample is the opposite of that in the next column, except along
/// the shafts.
proof fn lemma_feather_pair(m: int, r: int, y: int)
    requires
        0 <= r < 96,
        r % 2 == 1,
    ensures
        42 < r < 54 ==> !usual_feathers(192 * m + r, y) && !usual_feathers(192 * m + r + 96, y),
        !(42 < r < 54) ==> usual_feathers(192 * m + r, y) == !usual_feathers(
            192 * m + r + 96,
            y,
        ),
{
    let x = 192 * m + r;
    assert(2 * x / 192 == 2 * m);
    assert(2 * (x + 96) / 192 == 2 * m + 1);
    assert((2 * m) / 2 == m && (2 * m + 1) / 2 == m);
    assert(!is_odd(2 * m) && is_odd(2 * m + 1));
}

proof fn lemma_feathers_block(y: int, m: int)
    ensures
        tally(row_of(usual(Pattern::Yagasuri), y), 32 * m, 32 * m + 32) == 14,
{
    let fig = usual(Pattern::Yagasuri);
    let f = row_of(fig, y);
    let c = 32 * m;
    assert forall|x: int| c <= x < c + 16 implies if c + 7 <= x < c + 9 {
        !#[trigger] f(x) && !f(x + 16)
    } else {
        f(x) == !f(x + 16)
    } by {
        assert forall|a: int, b: int| is_spot(a) && is_spot(b) implies sample(fig, x, y, a, b)
            == usual_feathers(6 * x + a, 6 * y + b) && sample(fig, x + 16, y, a, b)
            == usual_feathers(6 * x + a + 96, 6 * y + b) by {
            lemma_feathers(6 * x + a, 6 * y + b);
            lemma_feathers(6 * x + a + 96, 6 * y + b);
            assert(6 * (x + 16) + a == 6 * x + a + 96);
        }
        assert forall|a: int, b: int| is_spot(a) && is_spot(b) implies if c + 7 <= x < c + 9 {
            !#[trigger] sample(fig, x, y, a, b) && !sample(fig, x + 16, y, a, b)
        } else {
            sample(fig, x, y, a, b) == !sample(fig, x + 16, y, a, b)
        } by {
            lemma_feather_pair(m, 6 * (x - c) + a, 6 * y + b);
            assert(192 * m + (6 * (x - c) + a) == 6 * x + a);
        }
        if c + 7 <= x < c + 9 {
            assert forall|a: int, b: int| is_spot(a) && is_spot(b) implies !#[trigger] sample(
                fig,
                x + 16,
                y,
                a,
                b,
            ) by {
                assert(!sample(fig, x, y, a, b));
            }
            lemma_blank_pixel(fig, x, y);
            lemma_blank_pixel(fig, x + 16, y);
        } else {
            lemma_opposite_pixels(fig, x, y, x + 16, y, false);
        }
    }
    lemma_opposite(f, f, c, c + 7, 16);
    lemma_none(f, c + 7, c + 9);
    assert forall|x: int| c + 23 <= x < c + 25 implies !#[trigger] f(x) by {
        assert(!f(x - 16));
    }
    lemma_none(f, c + 23, c + 25);
    lemma_opposite(f, f, c + 9, c + 16, 16);
    lemma_parts(f, c, c + 7, c + 32);
    lemma_parts(f, c + 7, c + 9, c + 32);
    lemma_parts(f, c + 9, c + 16, c + 32);
    lemma_parts(f, c + 16, c + 23, c + 32);
    lemma_parts(f, c + 23, c + 25, c + 32);
}

proof fn lemma_feathers_row(y: int)
    ensures
        tally(row_of(usual(Pattern::Yagasuri), y), 0, 384) == 168,
{
    let f = row_of(usual(Pattern::Yagasuri), y);
    assert forall|k: int| 0 <= k < 12 implies #[trigger] tally(f, k * 32, k * 32 + 32) == 14 by {
        lemma_feathers_block(y, k);
        assert(k * 32 == 32 * k);
    }
    lemma_blocks(f, 32, 14, 12);
}

/// A scale's sample is the opposite of the one half a scale on, upside down.
proof fn lemma_scale_pair(x: int, y: int)
    requires
        x % 2 == 1,
        y % 2 == 1,
        0 < y < 336,
    ensures
        usual_scales(x, y) == !usual_scales(x + 72, 336 - y),
{
    let j = y * 3 / 336;
    let depth = y * 3 - 336 * j;
    let v = 336 - y;
    let k = v * 3 / 336;
    assert(0 < depth < 336) by {
        assert(depth % 2 == 1 || depth % 2 == 0);
        assert((y * 3) % 2 == 1);
    }
    assert(k == 2 - j);
    assert(v * 3 - 336 * k == 336 - depth);
    assert(is_odd(k) == is_odd(j));
    let z = (x + if is_odd(j) {
        72int
    } else {
        0
    }) % 144;
    let w = (x + 72 + if is_odd(j) {
        72int
    } else {
        0
    }) % 144;
    assert(w == if z < 72 {
        z + 72
    } else {
        z - 72
    });
    assert(z % 2 == 1);
    assert(depth % 2 == 1);
}

proof fn lemma_scale_sample_pair(x: int, y: int, a: int, b: int)
    requires
        0 <= y < 56,
        is_spot(a),
        is_spot(b),
    ensures
        sample(usual(Pattern::Uroko), x, y, a, b) == !sample(
            usual(Pattern::Uroko),
            x + 12,
            55 - y,
            a,
            6 - b,
        ),
{
    let s = 6 * x + a;
    let t = 6 * y + b;
    lemma_scales(s, t);
    lemma_scales(s + 72, 336 - t);
    lemma_scale_pair(s, t);
    assert(6 * (x + 12) + a == s + 72);
    assert(6 * (55 - y) + (6 - b) == 336 - t);
}

proof fn lemma_scale_sample_repeats(x: int, y: int, a: int, b: int)
    ensures
        sample(usual(Pattern::Uroko), x, y, a, b) == sample(
            usual(Pattern::Uroko),
            x + 384,
            y,
            a,
            b,
        ),
{
    let s = 6 * x + a;
    let t = 6 * y + b;
    lemma_scales(s, t);
    lemma_scales(s + 2304, t);
    assert(6 * (x + 384) + a == s + 2304);
    let j = t * 3 / 336;
    let shift = if is_odd(j) {
        72int
    } else {
        0
    };
    assert((s + 2304 + shift) % 144 == (s + shift) % 144);
}

proof fn lemma_scale_pixel_pair(x: int, y: int)
    requires
        0 <= y < 56,
    ensures
        is_dark(usual(Pattern::Uroko), x, y) == !is_dark(usual(Pattern::Uroko), x + 12, 55 - y),
{
    let fig = usual(Pattern::Uroko);
    assert forall|a: int, b: int| is_spot(a) && is_spot(b) implies #[trigger] sample(
        fig,
        x,
        y,
        a,
        b,
    ) == !sample(fig, x + 12, 55 - y, a, 6 - b) by {
        lemma_scale_sample_pair(x, y, a, b);
    }
    lemma_opposite_pixels(fig, x, y, x + 12, 55 - y, true);
}

proof fn lemma_scale_pixel_repeats(x: int, y: int)
    ensures
        is_dark(usual(Pattern::Uroko), x, y) == is_dark(usual(Pattern::Uroko), x + 384, y),
{
    let fig = usual(Pattern::Uroko);
    assert forall|a: int, b: int| is_spot(a) && is_spot(b) implies #[trigger] sample(
        fig,
        x,
        y,
        a,
        b,
    ) == sample(fig, x + 384, y, a, b) by {
        lemma_scale_sample_repeats(x, y, a, b);
    }
    lemma_equal_pixels(fig, x, y, x + 384);
}

proof fn lemma_scales_rows(y: int)
    requires
        0 <= y < 56,
    ensures
        tally(row_of(usual(Pattern::Uroko), y), 0, 384) + tally(
            row_of(usual(Pattern::Uroko), 55 - y),
            0,
            384,
        ) == 384,
{
    let fig = usual(Pattern::Uroko);
    let f = row_of(fig, y);
    let g = row_of(fig, 55 - y);
    assert forall|x: int| 0 <= x < 384 implies #[trigger] f(x) == !g(x + 12) by {
        lemma_scale_pixel_pair(x, y);
    }
    lemma_opposite(f, g, 0, 384, 12);
    assert forall|x: int| 0 <= x < 12 implies #[trigger] g(x) == g(x + 384) by {
        lemma_scale_pixel_repeats(x, 55 - y);
    }
    lemma_same(g, g, 0, 12, 384);
    lemma_parts(g, 0, 12, 384);
    lemma_parts(g, 12, 384, 396);
}

proof fn lemma_equal_pixels(fig: Figure, x: int, y: int, u: int)
    requires
        forall|a: int, b: int|
            is_spot(a) && is_spot(b) ==> #[trigger] sample(fig, x, y, a, b) == sample(
                fig,
                u,
                y,
                a,
                b,
            ),
    ensures
        is_dark(fig, x, y) == is_dark(fig, u, y),
{
    assert(sample(fig, x, y, 1, 1) == sample(fig, u, y, 1, 1));
    assert(sample(fig, x, y, 3, 1) == sample(fig, u, y, 3, 1));
    assert(sample(fig, x, y, 5, 1) == sample(fig, u, y, 5, 1));
    assert(sample(fig, x, y, 1, 3) == sample(fig, u, y, 1, 3));
    assert(sample(fig, x, y, 3, 3) == sample(fig, u, y, 3, 3));
    assert(sample(fig, x, y, 5, 3) == sample(fig, u, y, 5, 3));
    assert(sample(fig, x, y, 1, 5) == sample(fig, u, y, 1, 5));
    assert(sample(fig, x, y, 3, 5) == sample(fig, u, y, 3, 5));
    assert(sample(fig, x, y, 5, 5) == sample(fig, u, y, 5, 5));
}

/// The rows of a band are those of its picture.
proof fn lemma_row_shown(pattern: Pattern, b: &Bitmap, y: int)
    requires
        is_band(pattern, default_options(), b),
        0 <= y < 56,
    ensures
        tally(|x: int| b.black(x, y), 0, 384) == tally(row_of(usual(pattern), y), 0, 384),
{
    let f = |x: int| b.black(x, y);
    let g = row_of(usual(pattern), y);
    assert forall|x: int| 0 <= x < 384 implies #[trigger] f(x) == g(x + 0) by {
        lemma_shown(pattern, b, x, y);
    }
    lemma_same(f, g, 0, 384, 0);
}

proof fn lemma_rows_join(b: &Bitmap, from: int, m: int, to: int)
    requires
        from <= m <= to,
    ensures
        ink_between(b, from, to) == ink_between(b, from, m) + ink_between(b, m, to),
    decreases to - m,
{
    if m < to {
        lemma_rows_join(b, from, m, to - 1);
    }
}

proof fn lemma_even_rows(pattern: Pattern, b: &Bitmap, each: int, n: int)
    requires
        is_band(pattern, default_options(), b),
        0 <= n <= 56,
        forall|y: int| #[trigger] tally(row_of(usual(pattern), y), 0, 384) == each,
    ensures
        ink_between(b, 0, n) == n * each,
    decreases n,
{
    if n > 0 {
        lemma_even_rows(pattern, b, each, n - 1);
        lemma_row_shown(pattern, b, n - 1);
        assert(tally(row_of(usual(pattern), n - 1), 0, 384) == each);
        assert(n * each == (n - 1) * each + each) by (nonlinear_arith);
    } else {
        assert(0 * each == 0);
    }
}

proof fn lemma_mirrored_rows(b: &Bitmap, n: int)
    requires
        is_band(Pattern::Uroko, default_options(), b),
        0 <= n <= 28,
    ensures
        ink_between(b, 0, n) + ink_between(b, 56 - n, 56) == 384 * n,
    decreases n,
{
    if n > 0 {
        lemma_mirrored_rows(b, n - 1);
        lemma_row_shown(Pattern::Uroko, b, n - 1);
        lemma_row_shown(Pattern::Uroko, b, 56 - n);
        lemma_scales_rows(n - 1);
        assert(55 - (n - 1) == 56 - n);
        lemma_rows_join(b, 56 - n, 57 - n, 56);
        reveal_with_fuel(ink_between, 2);
    }
}

/// The solid motifs are about half ink: unless told otherwise, the checkerboard
/// and the scales are black in exactly half their pixels and the fletching,
/// which leaves its shafts white, in seven out of sixteen.
pub proof fn solid_bands_are_about_half_ink(pattern: Pattern, b: &Bitmap)
    requires
        is_band(pattern, default_options(), b),
        pattern == Pattern::Ichimatsu || pattern == Pattern::Uroko || pattern == Pattern::Yagasuri,
    ensures
        16 * ink_of(b) == (384 * b@.len()) * if pattern == Pattern::Yagasuri {
            7
        } else {
            8int
        },
{
    assert(b@.len() == 56);
    match pattern {
        Pattern::Ichimatsu => {
            assert forall|y: int| #[trigger] tally(row_of(usual(pattern), y), 0, 384) == 192 by {
                lemma_checks_row(y);
            }
            lemma_even_rows(pattern, b, 192, 56);
        },
        Pattern::Yagasuri => {
            assert forall|y: int| #[trigger] tally(row_of(usual(pattern), y), 0, 384) == 168 by {
                lemma_feathers_row(y);
            }
            lemma_even_rows(pattern, b, 168, 56);
        },
        _ => {
            lemma_mirrored_rows(b, 28);
            lemma_rows_join(b, 0, 28, 56);
        },
    }
}

} // verus!
