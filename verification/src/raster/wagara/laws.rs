//! A band tiles: its columns repeat, so it continues across the paper's edge
//! with no seam and no clipped motif.

use crate::raster::wagara::figures::{Figure, Pattern};
use crate::raster::wagara::shapes::Shape;
use vstd::prelude::*;
#[allow(unused_imports)]
use crate::raster::wagara::figures::{
    check_ink, check_rows, cosine, fan_covers, fan_of, feather_ink, fret_has, fret_u, fret_v,
    has_bit, inked, is_odd, is_scale_rows, joint_x, lattice_ink, leaf_ends, pow2_small, row_hides, row_strokes, scale_ink, shell_corner,
    spot_corner, steps, stroke_covers, stroke_of, swells, COS_ONE, FINE,
};
#[allow(unused_imports)]
use crate::raster::wagara::render::figure_votes;
#[allow(unused_imports)]
use crate::raster::wagara::shapes::{box_of, covers, unit_of};

verus! {

/// How many lattice columns make up one period.
spec fn shift(fig: Figure) -> int {
    match fig.pattern {
        Pattern::Kikkou => 2,
        Pattern::Sayagata => 12,
        _ => 1,
    }
}

/// Whether the shape `b` is the shape `a`, moved `t` to the right.
spec fn is_moved(a: Shape, b: Shape, t: int) -> bool {
    match (a, b) {
        (Shape::Nothing, Shape::Nothing) => true,
        (
            Shape::Line { m, ax, ay, dx, dy },
            Shape::Line { m: m2, ax: ax2, ay: ay2, dx: dx2, dy: dy2 },
        ) => m == m2 && ax2 == ax + t * m && ay == ay2 && dx == dx2 && dy == dy2,
        (
            Shape::Slant { m, ax, au, av, dx, du, dv },
            Shape::Slant { m: m2, ax: ax2, au: au2, av: av2, dx: dx2, du: du2, dv: dv2 },
        ) => m == m2 && ax2 == ax + t * m && au == au2 && av == av2 && dx == dx2 && du == du2
            && dv == dv2,
        (
            Shape::Ring { cx, cy, r2, reach, upper },
            Shape::Ring { cx: cx2, cy: cy2, r2: r22, reach: reach2, upper: upper2 },
        ) => cx2 == cx + t && cy == cy2 && r2 == r22 && reach == reach2 && upper == upper2,
        (
            Shape::Fan { cx, cy, r2, reach },
            Shape::Fan { cx: cx2, cy: cy2, r2: r22, reach: reach2 },
        ) => cx2 == cx + t && cy == cy2 && r2 == r22 && reach == reach2,
        _ => false,
    }
}

/// A moved shape covers the moved samples.
proof fn lemma_moved(a: Shape, b: Shape, t: int, x: int, y: int)
    requires
        is_moved(a, b, t),
    ensures
        covers(a, x, y) == covers(b, x + t, y),
{
    let m = unit_of(a);
    assert((x + t) * m == x * m + t * m) by (nonlinear_arith);
    assert(m == 1 ==> t * m == t && x * m == x && y * m == y && (x + t) * m == x + t)
        by (nonlinear_arith);
}

proof fn lemma_columns(fig: Figure, i: int, s: int)
    requires
        fig.wf(),
    ensures
        (i + s) * fig.pitch == i * fig.pitch + s * fig.pitch,
{
    let p = fig.pitch as int;
    assert((i + s) * p == i * p + s * p) by (nonlinear_arith);
}

/// The places of a column that is in the lattice.
proof fn lemma_place(fig: Figure, i: int)
    requires
        fig.wf(),
        -2 <= i <= 12 * fig.n + 2,
    ensures
        -1_152 <= i * fig.pitch <= 12 * 1152 + 1_152,
        fig.pattern != Pattern::Sayagata && i <= 2 * fig.n + 1 ==> i * fig.pitch <= 2 * 1152
            + fig.pitch,
        i <= fig.n + 1 ==> i * fig.pitch <= 1152 + fig.pitch,
{
    let n = fig.n as int;
    let p = fig.pitch as int;
    assert(-2 * p <= i * p <= 12 * (n * p) + 2 * p) by (nonlinear_arith)
        requires
            -2 <= i <= 12 * n + 2,
            p > 0,
    ;
    assert(i <= 2 * n + 1 ==> i * p <= 2 * (n * p) + p) by (nonlinear_arith)
        requires
            p > 0,
    ;
    assert(i <= n + 1 ==> i * p <= n * p + p) by (nonlinear_arith)
        requires
            p > 0,
    ;
}

/// The next motif of a row is the same one, a period further on.
proof fn lemma_next_motif(fig: Figure, k: int, i: int, e: int)
    requires
        fig.wf(),
        -fig.rows() <= k <= fig.rows(),
        fig.first() <= i,
        i + shift(fig) < fig.first() + fig.columns(),
        0 <= e < fig.edges(),
    ensures
        is_moved(
            stroke_of(fig, k, i, e),
            stroke_of(fig, k, i + shift(fig), e),
            2 * fig.pitch as int,
        ),
{
    let p = fig.pitch as int;
    let s = shift(fig);
    lemma_columns(fig, i, s);
    lemma_place(fig, i);
    lemma_place(fig, i + s);
    match fig.pattern {
        Pattern::Sayagata => {
            lemma_fret_glide(i, k, e);
            let u = p / 6;
            assert((i + 12) * u == i * u + 2 * p) by (nonlinear_arith)
                requires
                    u == p / 6,
                    p % 6 == 0,
            ;
            assert(-400 <= i * u <= 20_000) by (nonlinear_arith)
                requires
                    -2 <= i <= 12 * 16 + 2,
                    0 < u <= 96,
            ;
            assert(-400 <= (i + 12) * u <= 20_000) by (nonlinear_arith)
                requires
                    -2 <= i + 12 <= 12 * 16 + 2,
                    0 < u <= 96,
            ;
        },
        Pattern::Kikkou => {
            assert(is_odd(i) == is_odd(i + 2));
            let c = shell_corner(p, e);
            assert(-2 * p <= c.0 <= 2 * p);
        },
        Pattern::Asanoha => {
            let c = leaf_ends(p, e).0;
            assert(-3 * p <= c.0 <= 3 * p);
        },
        Pattern::Kanoko => {
            let c = spot_corner(p, e);
            assert(-13 * p <= c.0 <= 13 * p);
        },
        Pattern::Tatewaku => {
            lemma_wavy(fig, i, e);
        },
        _ => {},
    }
}

/// The key fret's table carries the fret's own glide: six steps along both of
/// its axes lead to the same strokes.
proof fn lemma_fret_glide(s: int, t: int, e: int)
    ensures
        fret_has(s + 12, t, e) == fret_has(s, t, e),
{
    if (s + t) % 2 == 0 {
        let u = ((s + t) / 2) % 12;
        let v = ((s - t) / 2) % 12;
        assert((s + 12 + t) / 2 == (s + t) / 2 + 6);
        assert((s + 12 - t) / 2 == (s - t) / 2 + 6);
        let u2 = ((s + 12 + t) / 2) % 12;
        let v2 = ((s + 12 - t) / 2) % 12;
        assert(u2 == (u + 6) % 12 && v2 == (v + 6) % 12);
        lemma_table_glide(u, v);
    }
}

proof fn lemma_powers()
    ensures
        pow2_small(0) == 1,
        pow2_small(1) == 2,
        pow2_small(2) == 4,
        pow2_small(3) == 8,
        pow2_small(4) == 16,
        pow2_small(5) == 32,
        pow2_small(6) == 64,
        pow2_small(7) == 128,
        pow2_small(8) == 256,
        pow2_small(9) == 512,
        pow2_small(10) == 1024,
        pow2_small(11) == 2048,
{
    reveal_with_fuel(pow2_small, 13);
}

proof fn lemma_high_half(hi: int, lo: int, d: int)
    requires
        0 <= hi,
        0 <= lo < 64,
        d > 0,
    ensures
        (64 * hi + lo) / (64 * d) == hi / d,
{
    vstd::arithmetic::div_mod::lemma_fundamental_div_mod(hi, d);
    let q = hi / d;
    let r = hi % d;
    assert(64 * hi + lo == (64 * d) * q + (64 * r + lo) && 0 <= 64 * r + lo < 64 * d)
        by (nonlinear_arith)
        requires
            hi == d * q + r,
            0 <= r < d,
            0 <= lo < 64,
    ;
    vstd::arithmetic::div_mod::lemma_fundamental_div_mod_converse(
        64 * hi + lo,
        64 * d,
        q,
        64 * r + lo,
    );
}

proof fn lemma_low_half(hi: int, lo: int, d: int, k: int)
    requires
        0 <= hi,
        0 <= lo < 64,
        d > 0,
        d * (2 * k) == 64,
    ensures
        ((64 * hi + lo) / d) % 2 == (lo / d) % 2,
{
    vstd::arithmetic::div_mod::lemma_fundamental_div_mod(lo, d);
    let q = lo / d;
    let r = lo % d;
    assert(64 * hi + lo == d * (2 * (k * hi) + q) + r) by (nonlinear_arith)
        requires
            lo == d * q + r,
            d * (2 * k) == 64,
    ;
    vstd::arithmetic::div_mod::lemma_fundamental_div_mod_converse(
        64 * hi + lo,
        d,
        2 * (k * hi) + q,
        r,
    );
}

/// The bits of two halves: of `hi` above and `lo` below.
proof fn lemma_halves(hi: int, lo: int)
    requires
        0 <= hi < 64,
        0 <= lo < 64,
    ensures
        (64 * hi + lo) / 64 == hi,
        (64 * hi + lo) / 128 == hi / 2,
        (64 * hi + lo) / 256 == hi / 4,
        (64 * hi + lo) / 512 == hi / 8,
        (64 * hi + lo) / 1024 == hi / 16,
        (64 * hi + lo) / 2048 == hi / 32,
        (64 * hi + lo) % 2 == lo % 2,
        ((64 * hi + lo) / 2) % 2 == (lo / 2) % 2,
        ((64 * hi + lo) / 4) % 2 == (lo / 4) % 2,
        ((64 * hi + lo) / 8) % 2 == (lo / 8) % 2,
        ((64 * hi + lo) / 16) % 2 == (lo / 16) % 2,
        ((64 * hi + lo) / 32) % 2 == (lo / 32) % 2,
{
    lemma_high_half(hi, lo, 1);
    lemma_high_half(hi, lo, 2);
    lemma_high_half(hi, lo, 4);
    lemma_high_half(hi, lo, 8);
    lemma_high_half(hi, lo, 16);
    lemma_high_half(hi, lo, 32);
    lemma_low_half(hi, lo, 1, 32);
    lemma_low_half(hi, lo, 2, 16);
    lemma_low_half(hi, lo, 4, 8);
    lemma_low_half(hi, lo, 8, 4);
    lemma_low_half(hi, lo, 16, 2);
    lemma_low_half(hi, lo, 32, 1);
}

/// Two table entries with their halves swapped have their bits swapped.
proof fn lemma_swapped(w: u16, w2: u16, u: int)
    requires
        w < 4096,
        w2 < 4096,
        w2 as int / 64 == w as int % 64,
        w2 as int % 64 == w as int / 64,
        0 <= u < 12,
    ensures
        has_bit(w2, (u + 6) % 12) == has_bit(w, u),
{
    let hi = w as int / 64;
    let lo = w as int % 64;
    lemma_powers();
    lemma_halves(hi, lo);
    lemma_halves(lo, hi);
    assert(w == 64 * hi + lo && w2 == 64 * lo + hi);
    assert(u == 0 || u == 1 || u == 2 || u == 3 || u == 4 || u == 5 || u == 6 || u == 7 || u == 8
        || u == 9 || u == 10 || u == 11);
}

proof fn lemma_table_glide(u: int, v: int)
    requires
        0 <= u < 12,
        0 <= v < 12,
    ensures
        has_bit(fret_u()[(v + 6) % 12], (u + 6) % 12) == has_bit(fret_u()[v], u),
        has_bit(fret_v()[(v + 6) % 12], (u + 6) % 12) == has_bit(fret_v()[v], u),
{
    let a = fret_u();
    let b = fret_v();
    let w = (v + 6) % 12;
    assert(a[v] < 4096 && a[w] < 4096 && a[w] as int / 64 == a[v] as int % 64 && a[w] as int % 64
        == a[v] as int / 64);
    assert(b[v] < 4096 && b[w] < 4096 && b[w] as int / 64 == b[v] as int % 64 && b[w] as int % 64
        == b[v] as int / 64);
    lemma_swapped(a[v], a[w], u);
    lemma_swapped(b[v], b[w], u);
}

proof fn lemma_wavy(fig: Figure, i: int, e: int)
    requires
        fig.wf(),
        fig.pattern == Pattern::Tatewaku,
        -1 <= i,
        i + 1 <= fig.n + 1,
    ensures
        is_moved(stroke_of(fig, 0, i, e), stroke_of(fig, 0, i + 1, e), 2 * fig.pitch as int),
{
    let p = fig.pitch as int;
    lemma_columns(fig, i, 1);
    lemma_place(fig, i);
    lemma_place(fig, i + 1);
    lemma_joint(fig, e / 2);
    lemma_joint(fig, e / 2 + 1);
    let cx = 2 * FINE * (i * p);
    let cx2 = 2 * FINE * ((i + 1) * p);
    assert(cx2 == cx + (2 * p) * FINE) by (nonlinear_arith)
        requires
            cx == 2 * FINE * (i * p),
            cx2 == 2 * FINE * ((i + 1) * p),
    ;
    assert(-0x1_0000_0000 <= cx <= 0x10_0000_0000) by (nonlinear_arith)
        requires
            cx == 2 * FINE * (i * p),
            -1_152 <= i * p <= 12 * 1152 + 1_152,
            FINE == 0x10_0000,
    ;
    assert(-0x1_0000_0000 <= cx2 <= 0x10_0000_0000) by (nonlinear_arith)
        requires
            cx2 == 2 * FINE * ((i + 1) * p),
            -1_152 <= (i + 1) * p <= 12 * 1152 + 1_152,
            FINE == 0x10_0000,
    ;
}

/// A wavy line stays near its column.
proof fn lemma_joint(fig: Figure, s: int)
    requires
        fig.wf(),
    ensures
        0 <= joint_x(fig, s) <= fig.pitch * FINE,
{
    let c = swells(fig);
    let n = steps(fig);
    let cos = cosine(2 * (c + 2) * s - c * n, 2 * n);
    let one = COS_ONE as int;
    assert(-one <= cos <= one);
    let whole = fig.pitch * FINE;
    let swell = whole * 6 / 25;
    let mean = whole * 27 / 50;
    assert(-(swell * one) <= swell * cos <= swell * one) by (nonlinear_arith)
        requires
            -one <= cos <= one,
            swell >= 0,
    ;
    assert(-swell <= swell * cos / one <= swell) by (nonlinear_arith)
        requires
            -(swell * one) <= swell * cos <= swell * one,
            one > 0,
    ;
    assert(whole >= 72 * 0x10_0000);
    assert(0 <= mean - swell && mean + swell <= whole);
}

/// Columns past an edge lie past it by as many pitches.
proof fn lemma_past_edges(fig: Figure, i: int)
    requires
        fig.wf(),
    ensures
        i >= fig.n ==> i * fig.pitch >= 1152,
        i >= fig.n + 1 ==> i * fig.pitch >= 1152 + fig.pitch,
        i >= 2 * fig.n ==> i * fig.pitch >= 2 * 1152,
        i <= 0 ==> i * fig.pitch <= 0,
        i <= -1 ==> i * fig.pitch <= -fig.pitch,
{
    let p = fig.pitch as int;
    let n = fig.n as int;
    assert(i >= n ==> i * p >= n * p) by (nonlinear_arith)
        requires
            p > 0,
    ;
    assert(i >= n + 1 ==> i * p >= n * p + p) by (nonlinear_arith)
        requires
            p > 0,
    ;
    assert(i >= 2 * n ==> i * p >= 2 * (n * p)) by (nonlinear_arith)
        requires
            p > 0,
    ;
    assert(i <= 0 ==> i * p <= 0) by (nonlinear_arith)
        requires
            p > 0,
    ;
    assert(i <= -1 ==> i * p <= -p) by (nonlinear_arith)
        requires
            p > 0,
    ;
}

/// The samples of a motif lie about its column: one that covers a sample with a
/// period of room beside it has a neighbour there in the lattice.
spec fn has_room(fig: Figure, i: int, x: int) -> bool {
    &&& x + 2 * fig.pitch <= 2303 ==> i + shift(fig) < fig.first() + fig.columns()
    &&& x > 2 * fig.pitch ==> i - shift(fig) >= fig.first()
}

/// A figure, one of its motifs, and a sample.
spec fn is_case(fig: Figure, pattern: Pattern, k: int, i: int, e: int, x: int) -> bool {
    &&& fig.wf()
    &&& fig.pattern == pattern
    &&& -fig.rows() <= k <= fig.rows()
    &&& fig.first() <= i < fig.first() + fig.columns()
    &&& 0 <= e < fig.edges()
    &&& 1 <= x <= 2303
}

proof fn lemma_room_asanoha(fig: Figure, k: int, i: int, e: int, x: int, y: int)
    requires
        is_case(fig, Pattern::Asanoha, k, i, e, x),
        covers(stroke_of(fig, k, i, e), x, y),
    ensures
        has_room(fig, i, x),
{
    let p = fig.pitch as int;
    lemma_place(fig, i);
    lemma_past_edges(fig, i);
    let ends = leaf_ends(p, e);
    assert(-3 * p <= ends.0.0 <= 3 * p && -3 * p <= ends.1.0 <= 3 * p);
    assert(6 * (i * p) - 3 * p - 18 <= 3 * x <= 6 * (i * p) + 6 * p + 18);
}

proof fn lemma_room_kanoko(fig: Figure, k: int, i: int, e: int, x: int, y: int)
    requires
        is_case(fig, Pattern::Kanoko, k, i, e, x),
        covers(stroke_of(fig, k, i, e), x, y),
    ensures
        has_room(fig, i, x),
{
    let p = fig.pitch as int;
    lemma_place(fig, i);
    lemma_past_edges(fig, i);
    assert(-13 * p <= spot_corner(p, e).0 <= 13 * p);
    assert(-13 * p <= spot_corner(p, (e + 1) % 4).0 <= 13 * p);
    assert(50 * (i * p) - 13 * p - 150 <= 25 * x <= 50 * (i * p) + 38 * p + 150);
}

proof fn lemma_room_kikkou(fig: Figure, k: int, i: int, e: int, x: int, y: int)
    requires
        is_case(fig, Pattern::Kikkou, k, i, e, x),
        covers(stroke_of(fig, k, i, e), x, y),
    ensures
        has_room(fig, i, x),
{
    let p = fig.pitch as int;
    lemma_place(fig, i);
    lemma_past_edges(fig, i);
    assert(-2 * p <= shell_corner(p, e).0 <= 2 * p);
    assert(-2 * p <= shell_corner(p, (e + 1) % 6).0 <= 2 * p);
    assert(3 * (i * p) - 2 * p - 18 <= 3 * x <= 3 * (i * p) + 2 * p + 18);
}

proof fn lemma_room_sayagata(fig: Figure, k: int, i: int, e: int, x: int, y: int)
    requires
        is_case(fig, Pattern::Sayagata, k, i, e, x),
        covers(stroke_of(fig, k, i, e), x, y),
    ensures
        has_room(fig, i, x),
{
    let p = fig.pitch as int;
    let n = fig.n as int;
    let u = p / 6;
    assert(-400 <= i * u <= 20_000) by (nonlinear_arith)
        requires
            -2 <= i <= 12 * 16 + 2,
            0 < u <= 96,
    ;
    assert(i >= 12 * n - 9 ==> i * u >= 2 * (n * p) - 9 * u) by (nonlinear_arith)
        requires
            6 * u == p,
            u > 0,
    ;
    assert(i <= 9 ==> i * u <= 9 * u) by (nonlinear_arith)
        requires
            u > 0,
    ;
    assert(x * 1 == x);
    assert(i * u - 6 <= x <= i * u + u + 6);
}

proof fn lemma_room_round(fig: Figure, k: int, i: int, e: int, x: int, y: int)
    requires
        is_case(fig, fig.pattern, k, i, e, x),
        fig.pattern == Pattern::Seigaiha || fig.pattern == Pattern::Shippou,
        covers(stroke_of(fig, k, i, e), x, y),
    ensures
        has_room(fig, i, x),
{
    let p = fig.pitch as int;
    lemma_place(fig, i);
    lemma_past_edges(fig, i);
    let r = (e + 1) * (p / 3);
    assert(fig.pattern == Pattern::Seigaiha ==> 0 <= r <= p) by (nonlinear_arith)
        requires
            r == (e + 1) * (p / 3),
            0 <= e,
            fig.pattern == Pattern::Seigaiha ==> e < 3,
            p > 0,
            p % 3 == 0,
    ;
    assert(x * 1 == x);
    if fig.pattern == Pattern::Seigaiha {
        assert(2 * (i * p) - p - 6 <= x <= 2 * (i * p) + 2 * p + 6);
    } else {
        assert(2 * (i * p) - (p + p / 2) - 6 <= x <= 2 * (i * p) + (p + p / 2) + 6);
    }
}

proof fn lemma_room_tatewaku(fig: Figure, k: int, i: int, e: int, x: int, y: int)
    requires
        is_case(fig, Pattern::Tatewaku, k, i, e, x),
        covers(stroke_of(fig, k, i, e), x, y),
    ensures
        has_room(fig, i, x),
{
    let p = fig.pitch as int;
    lemma_place(fig, i);
    lemma_past_edges(fig, i);
    lemma_joint(fig, e / 2);
    lemma_joint(fig, e / 2 + 1);
    let f = FINE as int;
    let cx = 2 * FINE * (i * p);
    assert(-0x1_0000_0000 <= cx <= 0x10_0000_0000) by (nonlinear_arith)
        requires
            cx == 2 * FINE * (i * p),
            -1_152 <= i * p <= 12 * 1152 + 1_152,
            FINE == 0x10_0000,
    ;
    assert(p * FINE <= 0x4000_0000) by (nonlinear_arith)
        requires
            p <= 576,
            FINE == 0x10_0000,
    ;
    assert(cx - p * f - 6 * f <= x * f <= cx + p * f + 6 * f);
    assert(2 * (i * p) - p - 6 <= x <= 2 * (i * p) + p + 6) by (nonlinear_arith)
        requires
            cx - p * f - 6 * f <= x * f <= cx + p * f + 6 * f,
            cx == 2 * f * (i * p),
            f == 0x10_0000,
    ;
}

proof fn lemma_room(fig: Figure, k: int, i: int, e: int, x: int, y: int)
    requires
        is_case(fig, fig.pattern, k, i, e, x),
        covers(stroke_of(fig, k, i, e), x, y),
    ensures
        has_room(fig, i, x),
{
    match fig.pattern {
        Pattern::Asanoha => lemma_room_asanoha(fig, k, i, e, x, y),
        Pattern::Kanoko => lemma_room_kanoko(fig, k, i, e, x, y),
        Pattern::Kikkou => lemma_room_kikkou(fig, k, i, e, x, y),
        Pattern::Sayagata => lemma_room_sayagata(fig, k, i, e, x, y),
        Pattern::Seigaiha => lemma_room_round(fig, k, i, e, x, y),
        Pattern::Shippou => lemma_room_round(fig, k, i, e, x, y),
        Pattern::Tatewaku => lemma_room_tatewaku(fig, k, i, e, x, y),
        _ => {},
    }
}

/// A place in a row, some columns further on.
proof fn lemma_shifted_place(q: int, e: int, s: int)
    requires
        e > 0,
    ensures
        (q + s * e) / e == q / e + s,
        (q + s * e) % e == q % e,
{
    vstd::arithmetic::div_mod::lemma_div_multiples_vanish_fancy(0, 0, e);
    vstd::arithmetic::div_mod::lemma_fundamental_div_mod(q, e);
    assert(q + s * e == e * (q / e + s) + q % e) by (nonlinear_arith)
        requires
            q == e * (q / e) + q % e,
    ;
    vstd::arithmetic::div_mod::lemma_fundamental_div_mod_converse(
        q + s * e,
        e,
        q / e + s,
        q % e,
    );
}

/// Which place of a row a column's stroke has.
proof fn lemma_place_in_row(q: int, e: int, columns: int)
    requires
        e > 0,
    ensures
        0 <= q / e < columns <==> 0 <= q < columns * e,
{
    vstd::arithmetic::div_mod::lemma_fundamental_div_mod(q, e);
    let d = q / e;
    assert(0 <= d < columns <==> 0 <= q < columns * e) by (nonlinear_arith)
        requires
            q == e * d + q % e,
            0 <= q % e < e,
            e > 0,
    ;
}

/// Whether one stroke of one motif covers a sample.
#[verifier::opaque]
spec fn motif_covers(fig: Figure, k: int, i: int, e: int, x: int, y: int) -> bool {
    covers(stroke_of(fig, k, i, e), x, y)
}

proof fn lemma_motif_at(fig: Figure, k: int, q: int, x: int, y: int)
    ensures
        stroke_covers(fig, k, q, x, y) == motif_covers(
            fig,
            k,
            fig.first() + q / fig.edges(),
            q % fig.edges(),
            x,
            y,
        ),
{
    reveal(stroke_covers);
    reveal(motif_covers);
}

proof fn lemma_neighbour(fig: Figure, k: int, i: int, e: int, x: int, y: int)
    requires
        is_case(fig, fig.pattern, k, i, e, x),
        motif_covers(fig, k, i, e, x, y),
    ensures
        x + 2 * fig.pitch <= 2303 ==> i + shift(fig) < fig.first() + fig.columns() && motif_covers(
            fig,
            k,
            i + shift(fig),
            e,
            x + 2 * fig.pitch,
            y,
        ),
        x > 2 * fig.pitch ==> i - shift(fig) >= fig.first() && motif_covers(
            fig,
            k,
            i - shift(fig),
            e,
            x - 2 * fig.pitch,
            y,
        ),
{
    reveal(motif_covers);
    let t = 2 * fig.pitch as int;
    let s = shift(fig);
    lemma_room(fig, k, i, e, x, y);
    if x + t <= 2303 {
        lemma_next_motif(fig, k, i, e);
        lemma_moved(stroke_of(fig, k, i, e), stroke_of(fig, k, i + s, e), t, x, y);
    }
    if x > t {
        lemma_next_motif(fig, k, i - s, e);
        lemma_moved(stroke_of(fig, k, i - s, e), stroke_of(fig, k, i, e), t, x - t, y);
    }
}

proof fn lemma_row_strokes(fig: Figure, k: int, x: int, y: int)
    requires
        fig.wf(),
        -fig.rows() <= k <= fig.rows(),
        1 <= x,
        x + 2 * fig.pitch <= 2303,
    ensures
        row_strokes(fig, k, fig.columns() * fig.edges(), x, y) == row_strokes(
            fig,
            k,
            fig.columns() * fig.edges(),
            x + 2 * fig.pitch,
            y,
        ),
{
    let n = fig.edges();
    let columns = fig.columns();
    let t = 2 * fig.pitch as int;
    let s = shift(fig);
    assert(columns * n > 0 ==> n > 0) by (nonlinear_arith)
        requires
            columns > 0,
    ;
    if row_strokes(fig, k, columns * n, x, y) {
        let q = choose|q: int| 0 <= q < columns * n && #[trigger] stroke_covers(fig, k, q, x, y);
        lemma_place_in_row(q, n, columns);
        lemma_motif_at(fig, k, q, x, y);
        lemma_neighbour(fig, k, fig.first() + q / n, q % n, x, y);
        lemma_shifted_place(q, n, s);
        lemma_place_in_row(q + s * n, n, columns);
        lemma_motif_at(fig, k, q + s * n, x + t, y);
        assert(stroke_covers(fig, k, q + s * n, x + t, y));
    }
    if row_strokes(fig, k, columns * n, x + t, y) {
        let q = choose|q: int|
            0 <= q < columns * n && #[trigger] stroke_covers(fig, k, q, x + t, y);
        lemma_place_in_row(q, n, columns);
        lemma_motif_at(fig, k, q, x + t, y);
        lemma_neighbour(fig, k, fig.first() + q / n, q % n, x + t, y);
        assert(q - s * n == q + (-s) * n) by (nonlinear_arith);
        lemma_shifted_place(q, n, -s);
        lemma_place_in_row(q - s * n, n, columns);
        lemma_motif_at(fig, k, q - s * n, x, y);
        assert(stroke_covers(fig, k, q - s * n, x, y));
    }
}

proof fn lemma_row_hides(fig: Figure, k: int, x: int, y: int)
    requires
        fig.wf(),
        -fig.rows() <= k <= fig.rows(),
        1 <= x,
        x + 2 * fig.pitch <= 2303,
    ensures
        row_hides(fig, k, fig.columns(), x, y) == row_hides(
            fig,
            k,
            fig.columns(),
            x + 2 * fig.pitch,
            y,
        ),
{
    reveal(fan_covers);
    let p = fig.pitch as int;
    let t = 2 * p;
    if fig.pattern == Pattern::Seigaiha {
        if row_hides(fig, k, fig.columns(), x, y) {
            let q = choose|q: int| 0 <= q < fig.columns() && #[trigger] fan_covers(fig, k, q, x, y);
            let i = q - 1;
            lemma_place(fig, i);
            lemma_past_edges(fig, i);
            assert(x * 1 == x);
            assert(2 * (i * p) - p <= x);
            lemma_columns(fig, i, 1);
            lemma_place(fig, i + 1);
            lemma_moved(fan_of(fig, k, i), fan_of(fig, k, i + 1), t, x, y);
            assert(fan_covers(fig, k, q + 1, x + t, y));
        }
        if row_hides(fig, k, fig.columns(), x + t, y) {
            let q = choose|q: int|
                0 <= q < fig.columns() && #[trigger] fan_covers(fig, k, q, x + t, y);
            let i = q - 1;
            lemma_place(fig, i);
            lemma_past_edges(fig, i);
            assert((x + t) * 1 == x + t);
            assert(x + t <= 2 * (i * p) + 2 * p);
            lemma_columns(fig, i - 1, 1);
            lemma_place(fig, i - 1);
            lemma_moved(fan_of(fig, k, i - 1), fan_of(fig, k, i), t, x, y);
            assert(fan_covers(fig, k, q - 1, x, y));
        }
    } else {
        assert(forall|q: int, z: int| !fan_covers(fig, k, q, z, y));
    }
}

proof fn lemma_lattice_tiles(fig: Figure, k: int, x: int, y: int)
    requires
        fig.wf(),
        k <= fig.rows(),
        1 <= x,
        x + 2 * fig.pitch <= 2303,
    ensures
        lattice_ink(fig, k, x, y) == lattice_ink(fig, k, x + 2 * fig.pitch, y),
    decreases k + fig.rows() + 1,
{
    if k >= -fig.rows() {
        lemma_row_strokes(fig, k, x, y);
        lemma_row_hides(fig, k, x, y);
        lemma_lattice_tiles(fig, k - 1, x, y);
    }
}

proof fn lemma_checks_tile(fig: Figure, x: int, y: int)
    requires
        fig.wf(),
    ensures
        check_ink(fig, x, y) == check_ink(fig, x + 2 * fig.pitch, y),
{
    let p = fig.pitch as int;
    lemma_shifted_place(x, p, 2);
}

proof fn lemma_scales_tile(fig: Figure, c: int, x: int, y: int)
    requires
        fig.wf(),
    ensures
        scale_ink(fig, c, x, y) == scale_ink(fig, c, x + 2 * fig.pitch, y),
{
    let p = fig.pitch as int;
    lemma_shifted_place(x, 2 * p, 1);
    lemma_shifted_place(x + p, 2 * p, 1);
    assert(1 * (2 * p) == 2 * p);
}

proof fn lemma_feathers_tile(fig: Figure, x: int, y: int)
    requires
        fig.wf(),
    ensures
        feather_ink(fig, x, y) == feather_ink(fig, x + 2 * fig.pitch, y),
{
    let p = fig.pitch as int;
    let x2 = x + 2 * p;
    let i = 2 * x / p;
    let i2 = 2 * x2 / p;
    assert(2 * x2 == 2 * x + 4 * p);
    lemma_shifted_place(2 * x, p, 4);
    assert(i2 == i + 4);
    assert(2 * p * i2 == 2 * p * i + 8 * p) by (nonlinear_arith)
        requires
            i2 == i + 4,
    ;
    assert((i2 / 2) % 2 == (i / 2) % 2);
    assert(is_odd(i2) == is_odd(i));
}

/// Every pattern repeats after one motif.
pub proof fn samples_repeat_after_a_motif(fig: Figure, x: int, y: int)
    requires
        fig.wf(),
        1 <= x,
        x + 2 * fig.pitch <= 2303,
    ensures
        inked(fig, x, y) == inked(fig, x + 2 * fig.pitch, y),
{
    match fig.pattern {
        Pattern::Ichimatsu => lemma_checks_tile(fig, x, y),
        Pattern::Yagasuri => lemma_feathers_tile(fig, x, y),
        Pattern::Uroko => {
            assert forall|c: int| #[trigger] is_scale_rows(fig, c) implies scale_ink(fig, c, x, y)
                == scale_ink(fig, c, x + 2 * fig.pitch, y) by {
                lemma_scales_tile(fig, c, x, y);
            }
        },
        _ => lemma_lattice_tiles(fig, fig.rows(), x, y),
    }
}

/// A band tiles: column `x` of the paper looks like the column one period to
/// the right of it, whatever the motif, the height and the scale.
pub proof fn bands_tile(fig: Figure, x: int, y: int)
    requires
        fig.wf(),
        0 <= x,
        x + fig.pitch as int / 3 < 384,
    ensures
        figure_votes(fig, x, y) == figure_votes(fig, x + fig.pitch as int / 3, y),
{
    let d = fig.pitch as int / 3;
    assert(6 * (x + d) == 6 * x + 2 * fig.pitch);
    samples_repeat_after_a_motif(fig, 6 * x + 1, 6 * y + 1);
    samples_repeat_after_a_motif(fig, 6 * x + 3, 6 * y + 1);
    samples_repeat_after_a_motif(fig, 6 * x + 5, 6 * y + 1);
    samples_repeat_after_a_motif(fig, 6 * x + 1, 6 * y + 3);
    samples_repeat_after_a_motif(fig, 6 * x + 3, 6 * y + 3);
    samples_repeat_after_a_motif(fig, 6 * x + 5, 6 * y + 3);
    samples_repeat_after_a_motif(fig, 6 * x + 1, 6 * y + 5);
    samples_repeat_after_a_motif(fig, 6 * x + 3, 6 * y + 5);
    samples_repeat_after_a_motif(fig, 6 * x + 5, 6 * y + 5);
}

} // verus!
