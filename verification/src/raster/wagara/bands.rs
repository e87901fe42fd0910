//! What the bands look like unless told otherwise.

use crate::raster::bitmap::Bitmap;
use crate::raster::wagara::figures::{Figure, Pattern};
use crate::raster::wagara::shapes::Shape;
use vstd::prelude::*;
#[allow(unused_imports)]
use crate::raster::wagara::canvas::vote;
#[allow(unused_imports)]
use crate::raster::wagara::figures::{
    check_ink, check_rows, cos_quarter, cos_tail, cosine, fan_covers, fan_of, feather_ink, fret_has,
    fret_u, fret_v, has_bit, inked, is_odd, is_scale_rows, joint_x, joint_y, lattice_ink,
    pow2_small, row_hides, row_strokes, scale_ink, steps, stroke_covers, stroke_of, swells, COS_ONE,
    FINE,
};
#[allow(unused_imports)]
use crate::raster::wagara::laws::bands_tile;
#[allow(unused_imports)]
use crate::raster::wagara::options::{default_options, WagaraOptions};
#[allow(unused_imports)]
use crate::raster::wagara::render::{
    desired_width, figure_votes, is_band, is_figure, is_motif_count, misfit, motif_counts,
};
#[allow(unused_imports)]
use crate::raster::wagara::shapes::{box_of, covers, near_circle, near_line, near_slant, nonpositive};

verus! {

/// A motif fitted to a band of the usual height and scale.
pub open spec fn usual(pattern: Pattern) -> Figure {
    match pattern {
        Pattern::Asanoha | Pattern::Sayagata | Pattern::Yagasuri => Figure {
            pattern,
            n: 6,
            pitch: 192,
            h: 168,
        },
        Pattern::Ichimatsu | Pattern::Kikkou | Pattern::Seigaiha => Figure {
            pattern,
            n: 8,
            pitch: 144,
            h: 168,
        },
        Pattern::Shippou => Figure { pattern, n: 12, pitch: 96, h: 168 },
        Pattern::Kanoko | Pattern::Tatewaku | Pattern::Uroko => Figure {
            pattern,
            n: 16,
            pitch: 72,
            h: 168,
        },
    }
}

proof fn lemma_usual_count(n: int, desired: int, wanted: int)
    requires
        is_motif_count(n, desired),
        desired == 64 && wanted == 6 || desired == 48 && wanted == 8 || desired == 32 && wanted
            == 12 || desired == 24 && wanted == 16,
    ensures
        n == wanted,
{
    let all = motif_counts();
    let j = choose|j: int| 0 <= j < all.len() && all[j] == n;
    assert(all[4] == 6 && all[5] == 8 && all[6] == 12 && all[7] == 16);
    assert(384int / 6 == 64 && 384int / 8 == 48 && 384int / 12 == 32 && 384int / 16 == 24);
    assert(misfit(wanted, desired) == 0);
    assert(misfit(n, desired) <= misfit(wanted, desired));
    assert(384int / 1 == 384 && 384int / 2 == 192 && 384int / 3 == 128 && 384int / 4 == 96
        && 384int / 24 == 16 && 384int / 32 == 12 && 384int / 48 == 8 && 384int / 64 == 6 && 384int
        / 96 == 4 && 384int / 192 == 2);
}

pub(crate) proof fn lemma_usual(fig: Figure, pattern: Pattern)
    requires
        is_figure(fig, pattern, default_options()),
    ensures
        fig == usual(pattern),
        fig.wf(),
{
    lemma_usual_count(fig.n as int, desired_width(pattern), usual(pattern).n as int);
    let pitch = fig.pitch as int;
    let n = fig.n as int;
    assert(pitch == usual(pattern).pitch) by (nonlinear_arith)
        requires
            n * pitch == 1152,
            n == 6 && usual(pattern).pitch == 192 || n == 8 && usual(pattern).pitch == 144 || n
                == 12 && usual(pattern).pitch == 96 || n == 16 && usual(pattern).pitch == 72,
    ;
}

/// Whether a figure prints a pixel black.
pub open spec fn is_dark(fig: Figure, x: int, y: int) -> bool {
    2 * figure_votes(fig, x, y) >= 9
}

/// Whether a figure inks the sample at `(a, b)` of a pixel.
pub open spec fn sample(fig: Figure, x: int, y: int, a: int, b: int) -> bool {
    inked(fig, 6 * x + a, 6 * y + b)
}

/// Where the samples of a pixel stand.
pub open spec fn is_spot(a: int) -> bool {
    a == 1 || a == 3 || a == 5
}

pub(crate) proof fn lemma_dark(fig: Figure, x: int, y: int)
    requires
        forall|a: int, b: int| is_spot(a) && is_spot(b) ==> #[trigger] sample(fig, x, y, a, b),
    ensures
        is_dark(fig, x, y),
{
    assert(sample(fig, x, y, 1, 1) && sample(fig, x, y, 3, 1) && sample(fig, x, y, 5, 1));
    assert(sample(fig, x, y, 1, 3) && sample(fig, x, y, 3, 3) && sample(fig, x, y, 5, 3));
    assert(sample(fig, x, y, 1, 5) && sample(fig, x, y, 3, 5) && sample(fig, x, y, 5, 5));
}

proof fn lemma_rises(fig: Figure, k: int, top: int, x: int, y: int)
    requires
        -fig.rows() <= k <= top,
        lattice_ink(fig, k, x, y),
        forall|j: int| k < j <= top ==> !#[trigger] row_hides(fig, j, fig.columns(), x, y),
    ensures
        lattice_ink(fig, top, x, y),
    decreases top - k,
{
    if k < top {
        lemma_rises(fig, k, top - 1, x, y);
        assert(!row_hides(fig, top, fig.columns(), x, y));
    }
}

/// A sample under a stroke is inked, unless a later row hides it.
pub(crate) proof fn lemma_stroke(fig: Figure, k: int, i: int, e: int, x: int, y: int)
    requires
        -fig.rows() <= k <= fig.rows(),
        fig.first() <= i < fig.first() + fig.columns(),
        0 <= e < fig.edges(),
        covers(stroke_of(fig, k, i, e), x, y),
        forall|j: int| k < j <= fig.rows() ==> !#[trigger] row_hides(fig, j, fig.columns(), x, y),
    ensures
        lattice_ink(fig, fig.rows(), x, y),
{
    reveal(stroke_covers);
    let n = fig.edges();
    let c = i - fig.first();
    let q = c * n + e;
    vstd::arithmetic::div_mod::lemma_fundamental_div_mod_converse(q, n, c, e);
    assert(0 <= q < fig.columns() * n) by (nonlinear_arith)
        requires
            0 <= c,
            c + 1 <= fig.columns(),
            0 <= e < n,
            q == c * n + e,
    ;
    assert(stroke_covers(fig, k, q, x, y));
    lemma_rises(fig, k, fig.rows(), x, y);
}

pub(crate) proof fn lemma_nothing_hidden(fig: Figure, x: int, y: int)
    requires
        fig.pattern != Pattern::Seigaiha,
    ensures
        forall|j: int| !#[trigger] row_hides(fig, j, fig.columns(), x, y),
{
    reveal(fan_covers);
}

/// A point no further from the end of a segment than half a stroke lies within
/// the stroke.
pub(crate) proof fn lemma_near_end(m: int, wx: int, wy: int, dx: int, dy: int)
    requires
        wx * wx + wy * wy <= 36 * (m * m),
    ensures
        near_line(m, wx, wy, dx, dy),
{
    let dot = wx * dx + wy * dy;
    let len2 = dx * dx + dy * dy;
    let w2 = wx * wx + wy * wy;
    let cross = wx * dy - wy * dx;
    let (p, q, r, t) = (wx * dx, wy * dy, wx * dy, wy * dx);
    let (a, b, c, d) = (wx * wx, wy * wy, dx * dx, dy * dy);
    assert(p * p == a * c && q * q == b * d && r * r == a * d && t * t == b * c && p * q == r * t)
        by (nonlinear_arith)
        requires
            p == wx * dx,
            q == wy * dy,
            r == wx * dy,
            t == wy * dx,
            a == wx * wx,
            b == wy * wy,
            c == dx * dx,
            d == dy * dy,
    ;
    assert(cross * cross == r * r - 2 * (r * t) + t * t) by (nonlinear_arith)
        requires
            cross == r - t,
    ;
    assert(dot * dot == p * p + 2 * (p * q) + q * q) by (nonlinear_arith)
        requires
            dot == p + q,
    ;
    assert(w2 * len2 == a * c + a * d + b * c + b * d) by (nonlinear_arith)
        requires
            w2 == a + b,
            len2 == c + d,
    ;
    let half2 = 36 * (m * m);
    assert(w2 * len2 <= half2 * len2) by (nonlinear_arith)
        requires
            w2 <= half2,
            len2 == dx * dx + dy * dy,
    ;
    assert(dot * dot >= 0) by (nonlinear_arith);
    assert((wx - dx) * (wx - dx) + (wy - dy) * (wy - dy) == w2 - 2 * dot + len2)
        by (nonlinear_arith)
        requires
            dot == wx * dx + wy * dy,
            len2 == dx * dx + dy * dy,
            w2 == wx * wx + wy * wy,
    ;
    assert(len2 >= 0) by (nonlinear_arith)
        requires
            len2 == dx * dx + dy * dy,
    ;
}

pub(crate) proof fn lemma_asanoha(i: int, d: int, y: int)
    requires
        i == 0 || i == 6,
        -5 <= d <= 5,
        0 <= y <= 336,
    ensures
        inked(usual(Pattern::Asanoha), 384 * i + d, y),
{
    let fig = usual(Pattern::Asanoha);
    let x = 384 * i + d;
    let shape = stroke_of(fig, 0, i, 6);
    assert(shape == Shape::Slant {
        m: 3,
        ax: (1152 * i) as i64,
        au: 504,
        av: -384i64,
        dx: 0,
        du: 0,
        dv: 768,
    }) by (nonlinear_arith)
        requires
            i == 0 || i == 6,
            shape == stroke_of(usual(Pattern::Asanoha), 0, i, 6),
    ;
    let wu = 3 * y - 504;
    let wx = 3 * d;
    assert(near_slant(3, wx, wu, 384, 0, 0, 768)) by (nonlinear_arith)
        requires
            -504 <= wu <= 504,
            -15 <= wx <= 15,
    ;
    assert(x * 3 - 1152 * i == 3 * d);
    assert(covers(shape, x, y));
    lemma_nothing_hidden(fig, x, y);
    lemma_stroke(fig, 0, i, 6, x, y);
}

proof fn lemma_kanoko_speck(i: int, d: int, e: int)
    requires
        i == 0 || i == 16,
        -5 <= d <= 5,
        -5 <= e <= 5,
        d * d + e * e <= 36,
    ensures
        inked(usual(Pattern::Kanoko), 144 * i + d, 168 + e),
{
    let fig = usual(Pattern::Kanoko);
    let x = 144 * i + d;
    let y = 168 + e;
    let shape = stroke_of(fig, 0, i, 4);
    assert(shape == Shape::Slant {
        m: 25,
        ax: (3600 * i) as i64,
        au: 4200,
        av: 0,
        dx: 0,
        du: 0,
        dv: 0,
    }) by (nonlinear_arith)
        requires
            i == 0 || i == 16,
            shape == stroke_of(usual(Pattern::Kanoko), 0, i, 4),
    ;
    let wx = 25 * d;
    let wu = 25 * e;
    assert(wx * wx + wu * wu <= 22_500) by (nonlinear_arith)
        requires
            wx == 25 * d,
            wu == 25 * e,
            d * d + e * e <= 36,
    ;
    assert(near_slant(25, wx, wu, 0, 0, 0, 0)) by (nonlinear_arith)
        requires
            wx * wx + wu * wu <= 22_500,
    ;
    assert(x * 25 - 3600 * i == wx && y * 25 - 4200 == wu);
    assert(covers(shape, x, y));
    lemma_nothing_hidden(fig, x, y);
    lemma_stroke(fig, 0, i, 4, x, y);
}

pub(crate) proof fn lemma_kikkou(i: int, d: int, y: int)
    requires
        i == 0 || i == 16,
        -47 <= d <= 47,
        y == 247 || y == 249 || y == 251,
        0 <= 144 * i + d <= 2304,
    ensures
        inked(usual(Pattern::Kikkou), 144 * i + d, y),
{
    let fig = usual(Pattern::Kikkou);
    let x = 144 * i + d;
    let shape = stroke_of(fig, 0, i, 1);
    assert(shape == Shape::Slant {
        m: 3,
        ax: (432 * i + 144) as i64,
        au: 504,
        av: 144,
        dx: -288i64,
        du: 0,
        dv: 0,
    }) by (nonlinear_arith)
        requires
            i == 0 || i == 16,
            shape == stroke_of(usual(Pattern::Kikkou), 0, i, 1),
    ;
    let wx = 3 * d - 144;
    let wu = 3 * y - 504;
    assert(near_slant(3, wx, wu, -144, -288, 0, 0)) by (nonlinear_arith)
        requires
            -285 <= wx <= -3,
            wu == 237 || wu == 243 || wu == 249,
    ;
    assert(x * 3 - (432 * i + 144) == wx);
    assert(covers(shape, x, y));
    lemma_nothing_hidden(fig, x, y);
    lemma_stroke(fig, 0, i, 1, x, y);
}

/// A sample near the middle of one of the rising strokes of the key fret.
pub(crate) proof fn lemma_sayagata(i: int, k: int, a: int, b: int)
    requires
        i == 0 && k == 0 || i == 71 && k == 1,
        -3 <= a <= 3,
        -3 <= b <= 3,
    ensures
        inked(usual(Pattern::Sayagata), 32 * i + 16 + a, 168 + 32 * k - 16 + b),
{
    let fig = usual(Pattern::Sayagata);
    let x = 32 * i + 16 + a;
    let y = 168 + 32 * k - 16 + b;
    assert(fret_has(i, k, 1)) by {
        assert(fret_v()[0] == 0xc03u16 && fret_v()[11] == 0xe07u16);
        assert(pow2_small(0) == 1);
        assert(0xc03int % 2 == 1 && 0xe07int % 2 == 1);
    }
    let shape = stroke_of(fig, k, i, 1);
    assert(shape == Shape::Line {
        m: 1,
        ax: (32 * i) as i64,
        ay: (168 + 32 * k) as i64,
        dx: 32,
        dy: -32i64,
    }) by (nonlinear_arith)
        requires
            i == 0 && k == 0 || i == 71 && k == 1,
            fret_has(i, k, 1),
            shape == stroke_of(usual(Pattern::Sayagata), k, i, 1),
    ;
    let wx = 16 + a;
    let wy = b - 16;
    assert(near_line(1, wx, wy, 32, -32)) by (nonlinear_arith)
        requires
            13 <= wx <= 19,
            -19 <= wy <= -13,
    ;
    assert(x * 1 - 32 * i == 16 + a && y * 1 - (168 + 32 * k) == b - 16);
    assert(covers(shape, x, y));
    lemma_nothing_hidden(fig, x, y);
    lemma_stroke(fig, k, i, 1, x, y);
}

/// A sample near the top of the fan in row `k` and column `i`, on its arc `e`.
pub(crate) proof fn lemma_seigaiha(k: int, i: int, e: int, d: int, y: int)
    requires
        k == 2 || k == 4,
        i == 0 || i == 8,
        0 <= e <= 2,
        -5 <= d <= 5,
        0 <= 288 * i + d <= 2304,
        168 + 72 * k - 48 * (e + 1) + 1 <= y <= 168 + 72 * k - 48 * (e + 1) + 5,
        y <= 336,
    ensures
        inked(usual(Pattern::Seigaiha), 288 * i + d, y),
{
    let fig = usual(Pattern::Seigaiha);
    let x = 288 * i + d;
    let shape = stroke_of(fig, k, i, e);
    let r = 48 * (e + 1);
    let down = y - (168 + 72 * k);
    assert(r == 48 || r == 96 || r == 144);
    assert(shape == Shape::Ring {
        cx: (288 * i) as i64,
        cy: (168 + 72 * k) as i64,
        r2: (r * r) as i64,
        reach: (r + 6) as i64,
        upper: true,
    }) by (nonlinear_arith)
        requires
            k == 2 || k == 4,
            i == 0 || i == 8,
            e == 0 && r == 48 || e == 1 && r == 96 || e == 2 && r == 144,
            shape == stroke_of(usual(Pattern::Seigaiha), k, i, e),
    ;
    assert(r * r == 2304 || r * r == 9216 || r * r == 20_736) by (nonlinear_arith)
        requires
            r == 48 || r == 96 || r == 144,
    ;
    let d2 = d * d + down * down;
    let gap = r + down;
    assert(d * d <= 25) by (nonlinear_arith)
        requires
            -5 <= d <= 5,
    ;
    assert(0 <= d * d) by (nonlinear_arith);
    assert(down * down == r * r - 2 * (r * gap) + gap * gap && gap * gap <= 25 && r * gap >= r && r
        * gap <= 5 * r && gap * gap >= 1) by (nonlinear_arith)
        requires
            gap == r + down,
            1 <= gap <= 5,
            r >= 48,
    ;
    let inside = r * r - d2 - 36;
    assert(inside <= 10 * r - 37);
    assert(near_circle(d2, r * r)) by {
        assert(d2 - r * r - 36 <= 0);
        if inside > 0 {
            assert(d2 >= r * r - 10 * r + 1);
            assert(inside * inside <= (10 * r) * (10 * r)) by (nonlinear_arith)
                requires
                    0 <= inside <= 10 * r,
            ;
            assert((10 * r) * (10 * r) <= 144 * (r * r - 10 * r + 1)) by (nonlinear_arith)
                requires
                    r >= 48,
            ;
        }
    }
    assert((x - 288 * i) * (x - 288 * i) + down * down == d2);
    assert(x * 1 == x && y * 1 == y);
    assert(covers(shape, x, y));
    reveal(fan_covers);
    assert forall|j: int| k < j <= fig.rows() implies !#[trigger] row_hides(
        fig,
        j,
        fig.columns(),
        x,
        y,
    ) by {
        lemma_not_hidden(j, x, y, d, i);
    }
    lemma_stroke(fig, k, i, e, x, y);
}

/// The rows further down do not reach up to a sample near a fan's middle line.
proof fn lemma_not_hidden(j: int, x: int, y: int, d: int, i: int)
    requires
        3 <= j <= 6,
        i == 0 || i == 8,
        x == 288 * i + d,
        -5 <= d <= 5,
        y < 168 + 72 * j - 144 || j == 3 && y <= 317,
    ensures
        !row_hides(usual(Pattern::Seigaiha), j, usual(Pattern::Seigaiha).columns(), x, y),
{
    reveal(fan_covers);
    let fig = usual(Pattern::Seigaiha);
    assert forall|q: int| 0 <= q < fig.columns() implies !#[trigger] fan_covers(
        fig,
        j,
        q,
        x,
        y,
    ) by {
        let fan = fan_of(fig, j, q - 1);
        let cx = 288 * (q - 1) + if is_odd(j) {
            144int
        } else {
            0
        };
        assert(fan == Shape::Fan {
            cx: cx as i64,
            cy: (168 + 72 * j) as i64,
            r2: 20_736,
            reach: 144,
        }) by (nonlinear_arith)
            requires
                fan == fan_of(usual(Pattern::Seigaiha), j, q - 1),
                cx == 288 * (q - 1) + if is_odd(j) {
                    144int
                } else {
                    0
                },
        ;
        assert(y * 1 == y && x * 1 == x);
        if j == 3 {
            let wx = x - cx;
            let wy = y - 384;
            assert(wx * wx >= 139 * 139) by (nonlinear_arith)
                requires
                    wx >= 139 || wx <= -139,
            ;
            assert(wy * wy >= 67 * 67) by (nonlinear_arith)
                requires
                    wy <= -67,
            ;
        }
    }
}

pub(crate) proof fn lemma_shippou(i: int, d: int, y: int)
    requires
        i == 0 || i == 12,
        -5 <= d <= 5,
        0 <= 192 * i + d <= 2304,
        31 <= y <= 35 || 301 <= y <= 305,
    ensures
        inked(usual(Pattern::Shippou), 192 * i + d, y),
{
    let fig = usual(Pattern::Shippou);
    let x = 192 * i + d;
    let shape = stroke_of(fig, 0, i, 0);
    assert(shape == Shape::Ring {
        cx: (192 * i) as i64,
        cy: 168,
        r2: 18_432,
        reach: 150,
        upper: false,
    }) by (nonlinear_arith)
        requires
            i == 0 || i == 12,
            shape == stroke_of(usual(Pattern::Shippou), 0, i, 0),
    ;
    let wy = y - 168;
    let d2 = d * d + wy * wy;
    assert(0 <= d * d <= 25) by (nonlinear_arith)
        requires
            -5 <= d <= 5,
    ;
    assert(133 * 133 <= wy * wy <= 137 * 137) by (nonlinear_arith)
        requires
            133 <= wy <= 137 || -137 <= wy <= -133,
    ;
    let outside = d2 - 18_432 - 36;
    let inside = 18_432 - d2 - 36;
    assert(near_circle(d2, 18_432)) by {
        if outside > 0 {
            assert(outside * outside <= 400 * 400) by (nonlinear_arith)
                requires
                    0 < outside <= 400,
            ;
        }
        if inside > 0 {
            assert(inside * inside <= 800 * 800) by (nonlinear_arith)
                requires
                    0 < inside <= 800,
            ;
        }
    }
    assert((x - 192 * i) * (x - 192 * i) + wy * wy == d2);
    assert(x * 1 == x && y * 1 == y);
    assert(covers(shape, x, y));
    lemma_nothing_hidden(fig, x, y);
    lemma_stroke(fig, 0, i, 0, x, y);
}

proof fn lemma_no_tail(x2: int, j: int)
    requires
        0 <= j <= 12,
    ensures
        cos_tail(0, x2, j) == 0,
    decreases 12 - j,
{
    if j < 12 {
        let d = (2 * j + 1) * (2 * j + 2);
        assert(d > 0) by (nonlinear_arith)
            requires
                j >= 0,
                d == (2 * j + 1) * (2 * j + 2),
        ;
        assert(0 * x2 == 0) by (nonlinear_arith);
        assert(0int / (COS_ONE as int) == 0);
        assert(0int / d == 0) by (nonlinear_arith)
            requires
                d > 0,
        ;
        lemma_no_tail(x2, j + 1);
    }
}

pub(crate) proof fn lemma_no_turn(den: int)
    requires
        den > 0,
    ensures
        cos_quarter(0, den) == COS_ONE,
{
    let turned = 6_908_435_304_715int * 0;
    let one = COS_ONE as int;
    assert(turned / den == 0) by (nonlinear_arith)
        requires
            den > 0,
            turned == 0,
    ;
    let x2 = (turned / den) * (turned / den) / one;
    assert(x2 == 0) by (nonlinear_arith)
        requires
            turned / den == 0,
            one > 0,
            x2 == (turned / den) * (turned / den) / one,
    ;
    let next = one * x2 / one / ((2 * 0int + 1) * (2 * 0int + 2));
    assert(next == 0) by (nonlinear_arith)
        requires
            x2 == 0,
            one > 0,
            next == one * x2 / one / ((2 * 0int + 1) * (2 * 0int + 2)),
    ;
    lemma_no_tail(x2, 1);
    assert(cos_tail(one, x2, 0) == one - cos_tail(next, x2, 1));
}

/// Where the wavy lines pinch.
pub(crate) proof fn lemma_pinch()
    ensures
        swells(usual(Pattern::Tatewaku)) == 2,
        steps(usual(Pattern::Tatewaku)) == 112,
        joint_y(usual(Pattern::Tatewaku), 42) == 84 * FINE,
        joint_x(usual(Pattern::Tatewaku), 42) == 22_649_241,
{
    let fig = usual(Pattern::Tatewaku);
    assert(swells(fig) == 2) by (nonlinear_arith)
        requires
            fig == usual(Pattern::Tatewaku),
    ;
    assert(steps(fig) == 112) by (nonlinear_arith)
        requires
            fig == usual(Pattern::Tatewaku),
            swells(fig) == 2,
    ;
    assert(cosine(112, 224) == -COS_ONE) by {
        lemma_no_turn(448);
    }
    assert(joint_y(fig, 42) == 84 * FINE) by (nonlinear_arith)
        requires
            fig == usual(Pattern::Tatewaku),
            swells(fig) == 2,
            steps(fig) == 112,
    ;
    assert(joint_x(fig, 42) == 22_649_241) by (nonlinear_arith)
        requires
            fig == usual(Pattern::Tatewaku),
            swells(fig) == 2,
            steps(fig) == 112,
            cosine(112, 224) == -COS_ONE,
    ;
}

proof fn lemma_tatewaku(i: int, right: bool, x: int, y: int)
    requires
        i == 0 && right && (x == 19 || x == 21 || x == 23) || i == 16 && !right && (x == 2281 || x
            == 2283 || x == 2285),
        y == 79 || y == 81 || y == 83,
    ensures
        inked(usual(Pattern::Tatewaku), x, y),
{
    let fig = usual(Pattern::Tatewaku);
    let e: int = if right {
        85
    } else {
        84
    };
    lemma_pinch();
    let shape = stroke_of(fig, 0, i, e);
    let m = FINE as int;
    let ax = if right {
        22_649_241int
    } else {
        2304 * FINE - 22_649_241
    };
    assert(e / 2 == 42);
    if let Shape::Line { m: unit, ax: sx, ay: sy, dx, dy } = shape {
        let wx = x * m - sx;
        let wy = y * m - sy;
        assert(unit == FINE && sx == ax && sy == 84 * FINE) by (nonlinear_arith)
            requires
                shape == stroke_of(usual(Pattern::Tatewaku), 0, i, e),
                shape == (Shape::Line { m: unit, ax: sx, ay: sy, dx, dy }),
                joint_y(usual(Pattern::Tatewaku), 42) == 84 * FINE,
                joint_x(usual(Pattern::Tatewaku), 42) == 22_649_241,
                i == 0 && e == 85 && ax == 22_649_241 || i == 16 && e == 84 && ax
                    == 2304 * FINE - 22_649_241,
        ;
        assert(wx * wx + wy * wy <= 36 * (m * m)) by (nonlinear_arith)
            requires
                -2_726_297 <= wx <= 2_726_297,
                -5_242_880 <= wy <= 5_242_880,
                m == 1_048_576,
        ;
        lemma_near_end(m, wx, wy, dx as int, dy as int);
        assert(covers(shape, x, y));
        lemma_nothing_hidden(fig, x, y);
        lemma_stroke(fig, 0, i, e, x, y);
    }
}

proof fn lemma_uroko_rows()
    ensures
        is_scale_rows(usual(Pattern::Uroko), 3),
{
    let fig = usual(Pattern::Uroko);
    assert(is_scale_rows(fig, 3)) by (nonlinear_arith)
        requires
            fig == usual(Pattern::Uroko),
    ;
}

/// The usual checkerboard.
pub open spec fn usual_checks(x: int, y: int) -> bool {
    (x / 144 + y * 2 / 336) % 2 == 0
}

pub(crate) proof fn lemma_checks(x: int, y: int)
    ensures
        inked(usual(Pattern::Ichimatsu), x, y) == usual_checks(x, y),
{
    let fig = usual(Pattern::Ichimatsu);
    assert(check_rows(fig) == 2) by (nonlinear_arith)
        requires
            fig == usual(Pattern::Ichimatsu),
    ;
    assert(y * check_rows(fig) == y * 2);
}

/// The usual scales.
pub open spec fn usual_scales(x: int, y: int) -> bool {
    let j = y * 3 / 336;
    let depth = y * 3 - 336 * j;
    let z = (x + if is_odd(j) {
        72int
    } else {
        0
    }) % 144;
    let off = if z <= 72 {
        z
    } else {
        144 - z
    };
    off * 336 <= depth * 72
}

pub(crate) proof fn lemma_scales(x: int, y: int)
    ensures
        inked(usual(Pattern::Uroko), x, y) == usual_scales(x, y),
{
    let fig = usual(Pattern::Uroko);
    lemma_uroko_rows();
    assert(scale_ink(fig, 3, x, y) == usual_scales(x, y)) by (nonlinear_arith)
        requires
            fig == usual(Pattern::Uroko),
    ;
    assert forall|c: int| #[trigger] is_scale_rows(fig, c) implies c == 3 by {
        lemma_only_three_rows(c);
    }
}

proof fn lemma_only_three_rows(c: int)
    requires
        is_scale_rows(usual(Pattern::Uroko), c),
    ensures
        c == 3,
{
    let p2 = 72int * 72;
    let h2 = 168int * 168;
    let lo = (2 * c - 1) * (2 * c - 1);
    let hi = (2 * c + 1) * (2 * c + 1);
    assert(c == 1 || 3 * lo * p2 <= 16 * h2);
    assert(3 * hi * p2 > 16 * h2);
    assert(3 * lo * p2 == 15_552 * lo && 3 * hi * p2 == 15_552 * hi) by (nonlinear_arith)
        requires
            p2 == 5184,
    ;
    if c >= 4 {
        assert(lo >= 49) by (nonlinear_arith)
            requires
                c >= 4,
                lo == (2 * c - 1) * (2 * c - 1),
        ;
    } else if c <= 2 {
        assert(hi <= 25) by (nonlinear_arith)
            requires
                1 <= c <= 2,
                hi == (2 * c + 1) * (2 * c + 1),
        ;
    }
}

/// The usual fletching.
pub open spec fn usual_feathers(x: int, y: int) -> bool {
    let i = 2 * x / 192;
    let from_shaft = 4 * x - (384 * i + 192);
    let reach = if from_shaft < 0 {
        -from_shaft
    } else {
        from_shaft
    };
    let edge = if (i / 2) % 2 == 1 {
        reach - 192
    } else {
        192 - reach
    };
    let z = (4 * (4 * y - edge) - if is_odd(i) {
        1344int
    } else {
        0
    }) % 2688;
    reach >= 24 && z < 1344
}

pub(crate) proof fn lemma_feathers(x: int, y: int)
    ensures
        inked(usual(Pattern::Yagasuri), x, y) == usual_feathers(x, y),
{
    let fig = usual(Pattern::Yagasuri);
    assert(check_rows(fig) == 2) by (nonlinear_arith)
        requires
            fig == usual(Pattern::Yagasuri),
    ;
    assert(feather_ink(fig, x, y) == usual_feathers(x, y)) by (nonlinear_arith)
        requires
            fig == usual(Pattern::Yagasuri),
            check_rows(fig) == 2,
    ;
}

/// Where each band has ink at the left edge.
spec fn left_ink(pattern: Pattern) -> (int, int) {
    match pattern {
        Pattern::Asanoha => (0, 28),
        Pattern::Ichimatsu => (0, 0),
        Pattern::Kanoko => (0, 28),
        Pattern::Kikkou => (0, 41),
        Pattern::Sayagata => (2, 25),
        Pattern::Seigaiha => (0, 52),
        Pattern::Shippou => (0, 5),
        Pattern::Tatewaku => (3, 13),
        Pattern::Uroko => (0, 17),
        Pattern::Yagasuri => (0, 4),
    }
}

/// Where each band has ink at the right edge.
spec fn right_ink(pattern: Pattern) -> (int, int) {
    match pattern {
        Pattern::Asanoha => (383, 28),
        Pattern::Ichimatsu => (383, 28),
        Pattern::Kanoko => (383, 28),
        Pattern::Kikkou => (383, 41),
        Pattern::Sayagata => (381, 30),
        Pattern::Seigaiha => (383, 52),
        Pattern::Shippou => (383, 5),
        Pattern::Tatewaku => (380, 13),
        Pattern::Uroko => (383, 17),
        Pattern::Yagasuri => (383, 16),
    }
}

pub(crate) proof fn lemma_kanoko_dark(right: bool)
    ensures
        is_dark(
            usual(Pattern::Kanoko),
            if right {
                383
            } else {
                0
            },
            28,
        ),
{
    let fig = usual(Pattern::Kanoko);
    if right {
        lemma_kanoko_speck(16, -3, 1);
        lemma_kanoko_speck(16, -3, 3);
        lemma_kanoko_speck(16, -3, 5);
        lemma_kanoko_speck(16, -1, 1);
        lemma_kanoko_speck(16, -1, 3);
        assert(sample(fig, 383, 28, 3, 1) && sample(fig, 383, 28, 3, 3));
        assert(sample(fig, 383, 28, 3, 5) && sample(fig, 383, 28, 5, 1));
        assert(sample(fig, 383, 28, 5, 3));
    } else {
        lemma_kanoko_speck(0, 3, 1);
        lemma_kanoko_speck(0, 3, 3);
        lemma_kanoko_speck(0, 3, 5);
        lemma_kanoko_speck(0, 1, 1);
        lemma_kanoko_speck(0, 1, 3);
        assert(sample(fig, 0, 28, 3, 1) && sample(fig, 0, 28, 3, 3));
        assert(sample(fig, 0, 28, 3, 5) && sample(fig, 0, 28, 1, 1));
        assert(sample(fig, 0, 28, 1, 3));
    }
}

proof fn lemma_left(pattern: Pattern)
    ensures
        is_dark(usual(pattern), left_ink(pattern).0, left_ink(pattern).1),
{
    let fig = usual(pattern);
    let (x, y) = left_ink(pattern);
    if pattern == Pattern::Kanoko {
        lemma_kanoko_dark(false);
    } else {
        assert forall|a: int, b: int| is_spot(a) && is_spot(b) implies #[trigger] sample(
            fig,
            x,
            y,
            a,
            b,
        ) by {
            match pattern {
                Pattern::Asanoha => lemma_asanoha(0, a, 168 + b),
                Pattern::Kikkou => lemma_kikkou(0, a, 246 + b),
                Pattern::Sayagata => lemma_sayagata(0, 0, a - 4, b - 2),
                Pattern::Seigaiha => lemma_seigaiha(4, 0, 2, a, 312 + b),
                Pattern::Shippou => lemma_shippou(0, a, 30 + b),
                Pattern::Tatewaku => lemma_tatewaku(0, true, 18 + a, 78 + b),
                Pattern::Uroko => lemma_scales(a, 102 + b),
                Pattern::Ichimatsu => lemma_checks(a, b),
                Pattern::Yagasuri => lemma_feathers(a, 24 + b),
                _ => {},
            }
        }
        lemma_dark(fig, x, y);
    }
}

proof fn lemma_right(pattern: Pattern)
    ensures
        is_dark(usual(pattern), right_ink(pattern).0, right_ink(pattern).1),
{
    let fig = usual(pattern);
    let (x, y) = right_ink(pattern);
    if pattern == Pattern::Kanoko {
        lemma_kanoko_dark(true);
    } else {
        assert forall|a: int, b: int| is_spot(a) && is_spot(b) implies #[trigger] sample(
            fig,
            x,
            y,
            a,
            b,
        ) by {
            match pattern {
                Pattern::Asanoha => lemma_asanoha(6, a - 6, 168 + b),
                Pattern::Kikkou => lemma_kikkou(16, a - 6, 246 + b),
                Pattern::Sayagata => lemma_sayagata(71, 1, a - 2, b - 4),
                Pattern::Seigaiha => lemma_seigaiha(4, 8, 2, a - 6, 312 + b),
                Pattern::Shippou => lemma_shippou(12, a - 6, 30 + b),
                Pattern::Tatewaku => lemma_tatewaku(16, false, 2280 + a, 78 + b),
                Pattern::Uroko => lemma_scales(2298 + a, 102 + b),
                Pattern::Ichimatsu => lemma_checks(2298 + a, 168 + b),
                Pattern::Yagasuri => lemma_feathers(2298 + a, 96 + b),
                _ => {},
            }
        }
        lemma_dark(fig, x, y);
    }
}

/// A band runs from edge to edge: unless told otherwise, every motif has ink in
/// the first eight columns of the paper and in the last eight.
pub proof fn bands_reach_both_edges(pattern: Pattern, b: &Bitmap)
    requires
        is_band(pattern, default_options(), b),
    ensures
        exists|x: int, y: int| 0 <= x < 8 && 0 <= y < b@.len() && #[trigger] b.black(x, y),
        exists|x: int, y: int| 376 <= x < 384 && 0 <= y < b@.len() && #[trigger] b.black(x, y),
{
    let fig = choose|fig: Figure| #[trigger]
        is_figure(fig, pattern, default_options()) && forall|x: int, y: int|
            0 <= x < 384 && 0 <= y < default_options().height ==> #[trigger] b.black(x, y) == (2
                * figure_votes(fig, x, y) >= 9);
    lemma_usual(fig, pattern);
    lemma_left(pattern);
    lemma_right(pattern);
    assert(b.black(left_ink(pattern).0, left_ink(pattern).1));
    assert(b.black(right_ink(pattern).0, right_ink(pattern).1));
}

proof fn lemma_repeats(fig: Figure, x: int, y: int, j: int)
    requires
        fig.wf(),
        0 <= x,
        0 <= j,
        x + j * (fig.pitch as int / 3) < 384,
    ensures
        figure_votes(fig, x, y) == figure_votes(fig, x + j * (fig.pitch as int / 3), y),
    decreases j,
{
    let d = fig.pitch as int / 3;
    if j > 0 {
        assert((j - 1) * d + d == j * d) by (nonlinear_arith);
        assert((j - 1) * d >= 0) by (nonlinear_arith)
            requires
                j >= 1,
                d >= 0,
        ;
        lemma_repeats(fig, x, y, j - 1);
        bands_tile(fig, x + (j - 1) * d, y);
    } else {
        assert(0 * d == 0);
    }
}

/// A band has no seam: unless told otherwise, its columns repeat after at most
/// half the paper's width, in a period that divides the width, across the edge
/// too.
pub proof fn bands_have_no_seam(pattern: Pattern, b: &Bitmap)
    requires
        is_band(pattern, default_options(), b),
    ensures
        exists|p: int|
            0 < p <= 192 && 384int % p == 0 && #[trigger] repeats_after(b, p),
{
    let fig = choose|fig: Figure| #[trigger]
        is_figure(fig, pattern, default_options()) && forall|x: int, y: int|
            0 <= x < 384 && 0 <= y < default_options().height ==> #[trigger] b.black(x, y) == (2
                * figure_votes(fig, x, y) >= 9);
    lemma_usual(fig, pattern);
    let p = fig.pitch as int / 3;
    assert(p == 64 || p == 48 || p == 32 || p == 24);
    assert forall|x: int, y: int| 0 <= x < 384 && 0 <= y < b@.len() implies #[trigger] b.black(
        x,
        y,
    ) == b.black((x + p) % 384, y) by {
        if x + p < 384 {
            lemma_repeats(fig, x, y, 1);
            assert((x + p) % 384 == x + p);
        } else {
            let from = x + p - 384;
            assert((x + p) % 384 == from);
            assert((fig.n - 1) * p == 384 - p);
            lemma_repeats(fig, from, y, fig.n - 1);
        }
    }
    assert(384int % 64 == 0 && 384int % 48 == 0 && 384int % 32 == 0 && 384int % 24 == 0);
    assert(repeats_after(b, p));
}

/// Whether a bitmap looks the same `p` columns further on, around the edge.
pub open spec fn repeats_after(b: &Bitmap, p: int) -> bool {
    forall|x: int, y: int|
        0 <= x < 384 && 0 <= y < b@.len() ==> #[trigger] b.black(x, y) == b.black((x + p) % 384, y)
}

} // verus!
