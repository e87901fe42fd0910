//! Drawing the motifs onto a canvas.

use crate::raster::wagara::canvas::{Canvas, SS_WIDTH};
use crate::raster::wagara::figures::{Figure, Pattern, COS_ONE, COS_TURN, FINE};
use crate::raster::wagara::shapes::Shape;
use vstd::prelude::*;
#[allow(unused_imports)]
use crate::raster::wagara::figures::{
    check_ink, check_rows, cos_quarter, cos_tail, cosine, fan_covers, fan_of, feather_ink, fret_has,
    fret_u, fret_v, has_bit, inked, is_odd, is_scale_rows, joint_x, joint_y, lattice_ink, leaf_centroid,
    leaf_corner, leaf_ends, pow2_small, row_hides, row_strokes, scale_ink, shell_corner,
    spot_corner, steps, stroke_covers, stroke_of, swells,
};
#[allow(unused_imports)]
use crate::raster::wagara::shapes::{covers, is_moderate};

verus! {

/// A place in the lattice is no further out than the band is tall.
proof fn lemma_row_place(h: int, p: int, k: int, c: int, extra: int)
    requires
        h >= 0,
        p > 0,
        c >= 0,
        -(c * h / p + extra) <= k <= c * h / p + extra,
        extra >= 0,
    ensures
        -(c * h + extra * p) <= k * p <= c * h + extra * p,
{
    let q = c * h / p;
    assert(c * h >= 0) by (nonlinear_arith)
        requires
            c >= 0,
            h >= 0,
    ;
    vstd::arithmetic::div_mod::lemma_fundamental_div_mod(c * h, p);
    assert(-(c * h + extra * p) <= k * p <= c * h + extra * p) by (nonlinear_arith)
        requires
            -(q + extra) <= k <= q + extra,
            p * q <= c * h,
            p > 0,
    ;
}

/// A column of the lattice is no further out than one motif past the roll.
proof fn lemma_column_place(fig: Figure, i: int)
    requires
        fig.wf(),
        -1 <= i <= fig.n + 1,
    ensures
        -fig.pitch <= i * fig.pitch <= 1152 + fig.pitch,
{
    let n = fig.n as int;
    let p = fig.pitch as int;
    assert(-p <= i * p <= n * p + p) by (nonlinear_arith)
        requires
            -1 <= i <= n + 1,
            p > 0,
    ;
}

fn odd(k: i64) -> (r: bool)
    requires
        -0x10_0000 <= k <= 0x10_0000,
    ensures
        r == is_odd(k as int),
{
    (k + 0x10_0000) % 2 == 1
}

fn corner_of_leaf(p: i64, e: i64) -> (r: (i64, i64))
    requires
        0 <= p <= 576,
        0 <= e < 6,
    ensures
        (r.0 as int, r.1 as int) == leaf_corner(p as int, e as int),
        -3 * p <= r.0 <= 3 * p,
        -2 * p <= r.1 <= 2 * p,
{
    if e == 0 {
        (0, -2 * p)
    } else if e == 1 {
        (3 * p, -p)
    } else if e == 2 {
        (3 * p, p)
    } else if e == 3 {
        (0, 2 * p)
    } else if e == 4 {
        (-3 * p, p)
    } else {
        (-3 * p, -p)
    }
}

fn centroid_of_leaf(p: i64, t: i64) -> (r: (i64, i64))
    requires
        0 <= p <= 576,
        0 <= t < 6,
    ensures
        (r.0 as int, r.1 as int) == leaf_centroid(p as int, t as int),
        -2 * p <= r.0 <= 2 * p,
        -p <= r.1 <= p,
{
    if t == 0 {
        (p, -p)
    } else if t == 1 {
        (2 * p, 0)
    } else if t == 2 {
        (p, p)
    } else if t == 3 {
        (-p, p)
    } else if t == 4 {
        (-2 * p, 0)
    } else {
        (-p, -p)
    }
}

fn ends_of_leaf(p: i64, e: i64) -> (r: ((i64, i64), (i64, i64)))
    requires
        0 <= p <= 576,
        0 <= e < 27,
    ensures
        ((r.0.0 as int, r.0.1 as int), (r.1.0 as int, r.1.1 as int)) == leaf_ends(
            p as int,
            e as int,
        ),
        -3 * p <= r.0.0 <= 3 * p,
        -2 * p <= r.0.1 <= 2 * p,
        -3 * p <= r.1.0 <= 3 * p,
        -2 * p <= r.1.1 <= 2 * p,
{
    if e < 6 {
        (corner_of_leaf(p, e), corner_of_leaf(p, (e + 1) % 6))
    } else if e < 9 {
        (corner_of_leaf(p, e - 6), corner_of_leaf(p, e - 3))
    } else {
        let t: i64 = (e - 9) / 3;
        let c: i64 = (e - 9) % 3;
        let end: (i64, i64) = if c == 0 {
            (0, 0)
        } else if c == 1 {
            corner_of_leaf(p, t)
        } else {
            corner_of_leaf(p, (t + 1) % 6)
        };
        (centroid_of_leaf(p, t), end)
    }
}

fn corner_of_shell(p: i64, e: i64) -> (r: (i64, i64))
    requires
        0 <= p <= 576,
        0 <= e < 6,
    ensures
        (r.0 as int, r.1 as int) == shell_corner(p as int, e as int),
        -2 * p <= r.0 <= 2 * p,
        -p <= r.1 <= p,
{
    if e == 0 {
        (2 * p, 0)
    } else if e == 1 {
        (p, p)
    } else if e == 2 {
        (-p, p)
    } else if e == 3 {
        (-2 * p, 0)
    } else if e == 4 {
        (-p, -p)
    } else {
        (p, -p)
    }
}

fn corner_of_spot(p: i64, e: i64) -> (r: (i64, i64))
    requires
        0 <= p <= 576,
        0 <= e < 4,
    ensures
        (r.0 as int, r.1 as int) == spot_corner(p as int, e as int),
        -13 * p <= r.0 <= 13 * p,
        -13 * p <= r.1 <= 13 * p,
{
    if e == 0 {
        (-13 * p, -13 * p)
    } else if e == 1 {
        (13 * p, -13 * p)
    } else if e == 2 {
        (13 * p, 13 * p)
    } else {
        (-13 * p, 13 * p)
    }
}

/// A stroke of a hemp leaf.
fn asanoha(fig: Figure, k: i64, i: i64, e: i64) -> (shape: Shape)
    requires
        fig.wf(),
        fig.pattern == Pattern::Asanoha,
        -fig.rows() <= k <= fig.rows(),
        -1 <= i <= fig.n + 1,
        0 <= e < 27,
    ensures
        shape == stroke_of(fig, k as int, i as int, e as int),
        is_moderate(shape),
{
    let p: i64 = fig.pitch;
    proof {
        lemma_row_place(fig.h as int, p as int, k as int, 1, 3);
        lemma_column_place(fig, i as int);
    }
    let ends: ((i64, i64), (i64, i64)) = ends_of_leaf(p, e);
    let cx: i64 = 6 * (i * p) + if odd(k) {
        3 * p
    } else {
        0
    };
    let cv: i64 = 3 * (k * p);
    Shape::Slant {
        m: 3,
        ax: cx + ends.0.0,
        au: 3 * fig.h,
        av: cv + ends.0.1,
        dx: ends.1.0 - ends.0.0,
        du: 0,
        dv: ends.1.1 - ends.0.1,
    }
}

/// A stroke of a fawn spot.
fn kanoko(fig: Figure, k: i64, i: i64, e: i64) -> (shape: Shape)
    requires
        fig.wf(),
        fig.pattern == Pattern::Kanoko,
        -fig.rows() <= k <= fig.rows(),
        -1 <= i <= fig.n + 1,
        0 <= e < 5,
    ensures
        shape == stroke_of(fig, k as int, i as int, e as int),
        is_moderate(shape),
{
    let p: i64 = fig.pitch;
    proof {
        lemma_row_place(fig.h as int, p as int, k as int, 1, 3);
        lemma_column_place(fig, i as int);
    }
    let a: (i64, i64) = if e == 4 {
        (0, 0)
    } else {
        corner_of_spot(p, e)
    };
    let b: (i64, i64) = if e == 4 {
        (0, 0)
    } else {
        corner_of_spot(p, (e + 1) % 4)
    };
    let cx: i64 = 50 * (i * p) + if odd(k) {
        25 * p
    } else {
        0
    };
    let cv: i64 = 25 * (k * p);
    Shape::Slant {
        m: 25,
        ax: cx + a.0,
        au: 25 * fig.h + a.1,
        av: cv,
        dx: b.0 - a.0,
        du: b.1 - a.1,
        dv: 0,
    }
}

/// A side of a tortoise shell.
fn kikkou(fig: Figure, k: i64, i: i64, e: i64) -> (shape: Shape)
    requires
        fig.wf(),
        fig.pattern == Pattern::Kikkou,
        -fig.rows() <= k <= fig.rows(),
        -1 <= i <= 2 * fig.n + 1,
        0 <= e < 6,
    ensures
        shape == stroke_of(fig, k as int, i as int, e as int),
        is_moderate(shape),
{
    let p: i64 = fig.pitch;
    proof {
        lemma_row_place(fig.h as int, p as int, k as int, 1, 3);
        let n = fig.n as int;
        assert(-p <= i * p <= 2 * (n * p) + p) by (nonlinear_arith)
            requires
                -1 <= i <= 2 * n + 1,
                p > 0,
        ;
    }
    let a: (i64, i64) = corner_of_shell(p, e);
    let b: (i64, i64) = corner_of_shell(p, (e + 1) % 6);
    let cx: i64 = 3 * (i * p);
    let cv: i64 = 2 * (k * p) + if odd(i) {
        p
    } else {
        0
    };
    Shape::Slant {
        m: 3,
        ax: cx + a.0,
        au: 3 * fig.h,
        av: cv + a.1,
        dx: b.0 - a.0,
        du: 0,
        dv: b.1 - a.1,
    }
}

/// An arc of a fan.
fn seigaiha(fig: Figure, k: i64, i: i64, e: i64) -> (shape: Shape)
    requires
        fig.wf(),
        fig.pattern == Pattern::Seigaiha,
        -fig.rows() <= k <= fig.rows(),
        -1 <= i <= fig.n + 1,
        0 <= e < 3,
    ensures
        shape == stroke_of(fig, k as int, i as int, e as int),
        is_moderate(shape),
{
    let p: i64 = fig.pitch;
    proof {
        lemma_fan_place(fig, k as int, i as int);
        let r = (e + 1) * (p / 3);
        assert(0 <= r <= p && 0 <= r * r <= p * p) by (nonlinear_arith)
            requires
                r == (e + 1) * (p / 3),
                0 <= e < 3,
                p > 0,
                p % 3 == 0,
        ;
        assert(p * p <= 576 * 576) by (nonlinear_arith)
            requires
                0 <= p <= 576,
        ;
    }
    let r: i64 = (e + 1) * (p / 3);
    Shape::Ring {
        cx: 2 * (i * p) + if odd(k) {
            p
        } else {
            0
        },
        cy: fig.h + k * (p / 2),
        r2: r * r,
        reach: r + 6,
        upper: true,
    }
}

proof fn lemma_fan_place(fig: Figure, k: int, i: int)
    requires
        fig.wf(),
        fig.pattern == Pattern::Seigaiha,
        -fig.rows() <= k <= fig.rows(),
        -1 <= i <= fig.n + 1,
    ensures
        -4_704 <= k * (fig.pitch as int / 2) <= 4_704,
        -fig.pitch <= i * fig.pitch <= 1152 + fig.pitch,
        -0x1000 <= k <= 0x1000,
{
    let p = fig.pitch as int;
    let h = fig.h as int;
    lemma_row_place(h, p, k, 2, 4);
    lemma_column_place(fig, i);
    assert(-4_704 <= k * (p / 2) <= 4_704) by (nonlinear_arith)
        requires
            -(2 * h + 4 * p) <= k * p <= 2 * h + 4 * p,
            h <= 1200,
            0 < p <= 576,
            p % 2 == 0,
    ;
    assert(2 * h / p <= 2 * h) by (nonlinear_arith)
        requires
            h >= 0,
            p >= 1,
    ;
}

/// What a fan hides.
fn fan(fig: Figure, k: i64, i: i64) -> (shape: Shape)
    requires
        fig.wf(),
        fig.pattern == Pattern::Seigaiha,
        -fig.rows() <= k <= fig.rows(),
        -1 <= i <= fig.n + 1,
    ensures
        shape == fan_of(fig, k as int, i as int),
        is_moderate(shape),
{
    let p: i64 = fig.pitch;
    proof {
        lemma_fan_place(fig, k as int, i as int);
        assert(0 <= p * p <= 576 * 576) by (nonlinear_arith)
            requires
                0 <= p <= 576,
        ;
    }
    Shape::Fan {
        cx: 2 * (i * p) + if odd(k) {
            p
        } else {
            0
        },
        cy: fig.h + k * (p / 2),
        r2: p * p,
        reach: p,
    }
}

/// A circle of the seven treasures.
fn shippou(fig: Figure, k: i64, i: i64) -> (shape: Shape)
    requires
        fig.wf(),
        fig.pattern == Pattern::Shippou,
        -fig.rows() <= k <= fig.rows(),
        -1 <= i <= fig.n + 1,
    ensures
        shape == stroke_of(fig, k as int, i as int, 0),
        is_moderate(shape),
{
    let p: i64 = fig.pitch;
    proof {
        lemma_row_place(fig.h as int, p as int, k as int, 1, 3);
        lemma_column_place(fig, i as int);
        assert(0 <= p * p <= 576 * 576) by (nonlinear_arith)
            requires
                0 <= p <= 576,
        ;
    }
    Shape::Ring {
        cx: 2 * (i * p),
        cy: fig.h + 2 * (k * p),
        r2: 2 * (p * p),
        reach: p + p / 2 + 6,
        upper: false,
    }
}

fn bit_of(word: u16, b: usize) -> (r: bool)
    requires
        b < 12,
    ensures
        r == has_bit(word, b as int),
{
    let mut divisor: u16 = 1;
    let mut j: usize = 0;
    while j < b
        invariant
            j <= b,
            b < 12,
            divisor == pow2_small(j as int),
            divisor >= 1,
            j == 0 ==> divisor == 1,
            j == 1 ==> divisor == 2,
            j == 2 ==> divisor == 4,
            j == 3 ==> divisor == 8,
            j == 4 ==> divisor == 16,
            j == 5 ==> divisor == 32,
            j == 6 ==> divisor == 64,
            j == 7 ==> divisor == 128,
            j == 8 ==> divisor == 256,
            j == 9 ==> divisor == 512,
            j == 10 ==> divisor == 1024,
            j == 11 ==> divisor == 2048,
        decreases b - j,
    {
        divisor = 2 * divisor;
        j = j + 1;
    }
    (word / divisor) % 2 == 1
}

fn fret(s: i64, t: i64, e: i64) -> (r: bool)
    requires
        -0x1_0000 <= s <= 0x1_0000,
        -0x1_0000 <= t <= 0x1_0000,
        0 <= e < 2,
    ensures
        r == fret_has(s as int, t as int, e as int),
{
    // A multiple of twenty-four keeps every remainder and makes it positive.
    let base: i64 = 24 * 0x1_0000;
    let sum: i64 = s + t + base;
    if sum % 2 != 0 {
        return false;
    }
    let u: usize = ((sum / 2) % 12) as usize;
    let v: usize = (((s - t + base) / 2) % 12) as usize;
    proof {
        assert((s + t) % 2 == 0);
        assert(u == ((s + t) / 2) % 12);
        assert(v == ((s - t) / 2) % 12);
    }
    let table: [u16; 12] = if e == 0 {
        [0x1fc, 0x9fc, 0x575, 0x38a, 0x386, 0xd45, 0xf07, 0xf27, 0xd55, 0x28e, 0x18e, 0x175]
    } else {
        [0xc03, 0xe07, 0xdfb, 0xb6d, 0xef7, 0x1f8, 0x0f0, 0x1f8, 0xef7, 0xb6d, 0xdfb, 0xe07]
    };
    assert(e == 0 ==> table@ =~= fret_u());
    assert(e == 1 ==> table@ =~= fret_v());
    bit_of(table[v], u)
}

/// A stroke of the key fret.
fn sayagata(fig: Figure, k: i64, i: i64, e: i64) -> (shape: Shape)
    requires
        fig.wf(),
        fig.pattern == Pattern::Sayagata,
        -fig.rows() <= k <= fig.rows(),
        -2 <= i <= 12 * fig.n + 2,
        0 <= e < 2,
    ensures
        shape == stroke_of(fig, k as int, i as int, e as int),
        is_moderate(shape),
{
    let p: i64 = fig.pitch;
    let unit: i64 = p / 6;
    proof {
        let h = fig.h as int;
        lemma_row_place(h, p as int, k as int, 6, 2);
        assert(6 * h / p as int <= 6 * h) by (nonlinear_arith)
            requires
                h >= 0,
                p >= 1,
        ;
        assert(-10_000 <= k * unit <= 10_000) by (nonlinear_arith)
            requires
                -(6 * h + 2 * p) <= k * p <= 6 * h + 2 * p,
                h <= 1200,
                0 < p <= 576,
                unit == p / 6,
                p % 6 == 0,
        ;
        assert(-10_000 <= i * unit <= 20_000) by (nonlinear_arith)
            requires
                -2 <= i <= 12 * 16 + 2,
                0 < unit <= 96,
        ;
    }
    if !fret(i, k, e) {
        return Shape::Nothing;
    }
    Shape::Line {
        m: 1,
        ax: i * unit,
        ay: k * unit + fig.h,
        dx: unit,
        dy: if e == 0 {
            unit
        } else {
            -unit
        },
    }
}

fn tail(term: i64, x2: i64, j: i64) -> (r: i64)
    requires
        0 <= term <= 2 * COS_ONE,
        j == 0 ==> term <= COS_ONE,
        0 <= x2 <= 3 * COS_ONE,
        0 <= j <= 12,
    ensures
        r == cos_tail(term as int, x2 as int, j as int),
        -2 * (12 - j) * COS_ONE <= r <= 2 * (12 - j) * COS_ONE,
    decreases 12 - j,
{
    if j >= 12 {
        return 0;
    }
    proof {
        assert(0 <= term * x2 <= 0x6_0000_0000_0000_0000_0000int) by (nonlinear_arith)
            requires
                0 <= term <= 0x200_0000_0000int,
                0 <= x2 <= 0x300_0000_0000int,
        ;
        assert(term <= 0x100_0000_0000int ==> term * x2 <= 0x3_0000_0000_0000_0000_0000int)
            by (nonlinear_arith)
            requires
                0 <= term,
                0 <= x2 <= 0x300_0000_0000int,
        ;
        assert(2 <= (2 * j + 1) * (2 * j + 2) <= 600) by (nonlinear_arith)
            requires
                0 <= j < 12,
        ;
        assert(j >= 1 ==> (2 * j + 1) * (2 * j + 2) >= 12) by (nonlinear_arith)
            requires
                0 <= j < 12,
        ;
    }
    let product: i128 = (term as i128) * (x2 as i128);
    let scaled: i128 = product / (COS_ONE as i128);
    let order: i64 = (2 * j + 1) * (2 * j + 2);
    let next: i128 = scaled / (order as i128);
    proof {
        assert(0 <= scaled <= 6 * COS_ONE);
        assert(j == 0 ==> scaled <= 3 * COS_ONE);
        if j == 0 {
            assert(0 <= next <= 2 * COS_ONE) by (nonlinear_arith)
                requires
                    next == scaled / (order as i128),
                    order >= 2,
                    0 <= scaled <= 3 * COS_ONE,
            ;
        } else {
            assert(0 <= next <= 2 * COS_ONE) by (nonlinear_arith)
                requires
                    next == scaled / (order as i128),
                    order >= 12,
                    0 <= scaled <= 6 * COS_ONE,
            ;
        }
    }
    term - tail(next as i64, x2, j + 1)
}

fn quarter(num: i64, den: i64) -> (r: i64)
    requires
        0 <= num,
        0 < den <= 0x10_0000,
        4 * num <= den,
    ensures
        r == cos_quarter(num as int, den as int),
        0 <= r <= COS_ONE,
{
    let x: i64 = COS_TURN * num / den;
    proof {
        assert(0 <= x <= COS_TURN / 4) by (nonlinear_arith)
            requires
                x == (COS_TURN * num) / (den as int),
                0 <= num,
                4 * num <= den,
                den > 0,
        ;
        let most = (COS_TURN / 4) as int;
        assert(0 <= x * x <= most * most) by (nonlinear_arith)
            requires
                0 <= x <= most,
        ;
    }
    let x2: i128 = (x as i128) * (x as i128) / (COS_ONE as i128);
    let c: i64 = tail(COS_ONE, x2 as i64, 0);
    if c < 0 {
        0
    } else if c > COS_ONE {
        COS_ONE
    } else {
        c
    }
}

fn cos_of(num: i64, den: i64) -> (r: i64)
    requires
        -0x1000_0000 <= num <= 0x1000_0000,
        0 < den <= 0x1_0000,
    ensures
        r == cosine(num as int, den as int),
        -COS_ONE <= r <= COS_ONE,
{
    let a: i64 = if num >= 0 {
        num % den
    } else {
        let up: i64 = (-num) % den;
        proof {
            let q = (-num) as int / den as int;
            vstd::arithmetic::div_mod::lemma_fundamental_div_mod(-num as int, den as int);
            if up == 0 {
                assert(num == den * (-q)) by (nonlinear_arith)
                    requires
                        -num == den * q,
                ;
                vstd::arithmetic::div_mod::lemma_fundamental_div_mod_converse(
                    num as int,
                    den as int,
                    -q,
                    0,
                );
            } else {
                assert(num == den * (-q - 1) + (den - up)) by (nonlinear_arith)
                    requires
                        -num == den * q + up,
                ;
                vstd::arithmetic::div_mod::lemma_fundamental_div_mod_converse(
                    num as int,
                    den as int,
                    -q - 1,
                    den - up,
                );
            }
        }
        if up == 0 {
            0
        } else {
            den - up
        }
    };
    let b: i64 = if 2 * a > den {
        den - a
    } else {
        a
    };
    if 4 * b > den {
        -quarter(den - 2 * b, 2 * den)
    } else {
        quarter(b, den)
    }
}

/// Division that rounds down.
fn floor_div(a: i128, b: i128) -> (r: i128)
    requires
        0 < b,
        -0x1_0000_0000_0000_0000_0000_0000 <= a <= 0x1_0000_0000_0000_0000_0000_0000,
    ensures
        r == a as int / b as int,
{
    if a >= 0 {
        return a / b;
    }
    let up: i128 = -a;
    let q: i128 = up / b;
    let rest: i128 = up % b;
    proof {
        vstd::arithmetic::div_mod::lemma_fundamental_div_mod(up as int, b as int);
        assert(0 <= q <= up) by (nonlinear_arith)
            requires
                q == up / b,
                b >= 1,
                up >= 0,
        ;
        if rest == 0 {
            assert(a == (-q) * b + 0) by (nonlinear_arith)
                requires
                    -a == b * q,
            ;
            vstd::arithmetic::div_mod::lemma_fundamental_div_mod_converse(
                a as int,
                b as int,
                -q,
                0,
            );
        } else {
            assert(a == (-q - 1) * b + (b - rest)) by (nonlinear_arith)
                requires
                    -a == b * q + rest,
            ;
            vstd::arithmetic::div_mod::lemma_fundamental_div_mod_converse(
                a as int,
                b as int,
                -q - 1,
                b - rest,
            );
        }
    }
    if rest == 0 {
        -q
    } else {
        -q - 1
    }
}

fn swell_count(fig: Figure) -> (c: i64)
    requires
        fig.wf(),
    ensures
        c == swells(fig),
        1 <= c <= 14,
{
    let p: i64 = fig.pitch;
    let c: i64 = (20 * fig.h + 13 * p) / (26 * p);
    proof {
        let a = 20 * fig.h + 13 * p;
        assert(0 <= c <= 14) by (nonlinear_arith)
            requires
                c == a / (26 * p),
                0 <= a,
                a < 15 * (26 * p),
                p > 0,
        ;
    }
    if c < 1 {
        1
    } else {
        c
    }
}

fn step_count(fig: Figure) -> (n: i64)
    requires
        fig.wf(),
    ensures
        n == steps(fig),
        8 <= n <= 6_500,
        3 * swells(fig) * n >= fig.h * (swells(fig) + 2),
{
    let c: i64 = swell_count(fig);
    proof {
        assert(0 <= fig.h * (c + 2) <= 1200 * 16) by (nonlinear_arith)
            requires
                0 <= fig.h <= 1200,
                1 <= c <= 14,
        ;
    }
    let total: i64 = fig.h * (c + 2);
    let s: i64 = (total + 3 * c - 1) / (3 * c);
    proof {
        let d = 3 * c;
        let a = total + d - 1;
        vstd::arithmetic::div_mod::lemma_fundamental_div_mod(a, d);
        assert(0 <= s <= a) by (nonlinear_arith)
            requires
                s == a / d,
                d >= 1,
                a >= 0,
        ;
        assert(d * s >= total) by (nonlinear_arith)
            requires
                a == d * s + a % d,
                a % d < d,
                a == total + d - 1,
        ;
        // The quotient by three or more is a third at most.
        assert(s <= 6_500) by (nonlinear_arith)
            requires
                s == a / d,
                d >= 3,
                0 <= a <= 19_300,
        ;
        assert(s < 8 ==> d * 8 >= total) by (nonlinear_arith)
            requires
                d * s >= total,
                d >= 0,
        ;
    }
    if s < 8 {
        8
    } else {
        s
    }
}

/// The height of a joint, given the swells and pieces of a wavy line.
fn y_of_joint(fig: Figure, c: i64, n: i64, s: i64) -> (y: i64)
    requires
        fig.wf(),
        c == swells(fig),
        n == steps(fig),
        1 <= c <= 14,
        8 <= n <= 6_500,
        0 <= s <= n + 1,
    ensures
        y == joint_y(fig, s as int),
        -0x2_0000_0000 <= y <= 0x8_0000_0000,
{
    let h: i64 = fig.h;
    proof {
        assert(0 <= (c + 2) * s <= 16 * 6_501) by (nonlinear_arith)
            requires
                1 <= c <= 14,
                0 <= s <= 6_501,
        ;
    }
    let turn: i64 = (c + 2) * s - n;
    let scale: i64 = 0x20_0000 * h;
    assert(scale == 2 * FINE * h) by (nonlinear_arith)
        requires
            scale == 0x20_0000 * h,
    ;
    proof {
        assert(-(scale * 6_500) <= scale * turn <= scale * 104_016) by (nonlinear_arith)
            requires
                -6_500 <= turn <= 104_016,
                scale >= 0,
        ;
        assert(8 <= c * n <= 14 * 6_500) by (nonlinear_arith)
            requires
                1 <= c <= 14,
                8 <= n <= 6_500,
        ;
    }
    let num: i128 = (scale as i128) * (turn as i128);
    let den: i64 = c * n;
    let y: i128 = floor_div(num, den as i128);
    proof {
        // The numerator lies between minus one and a few times the band.
        assert(num >= -(scale * den)) by (nonlinear_arith)
            requires
                num == scale * turn,
                turn >= -n,
                den == c * n,
                c >= 1,
                n >= 0,
                scale >= 0,
        ;
        assert(num <= scale * (4 * den)) by (nonlinear_arith)
            requires
                num == scale * turn,
                turn == (c + 2) * s - n,
                0 <= s <= n + 1,
                den == c * n,
                c >= 1,
                n >= 8,
                scale >= 0,
        ;
        assert(-scale <= y <= 4 * scale) by (nonlinear_arith)
            requires
                y == num as int / den as int,
                -(scale * den) <= num <= scale * (4 * den),
                den > 0,
        ;
    }
    y as i64
}

/// Neighbouring joints are no more than a stroke's half-width apart in height.
proof fn lemma_joint_step(fig: Figure, s: int)
    requires
        fig.wf(),
        1 <= swells(fig) <= 14,
        8 <= steps(fig) <= 6_500,
        3 * swells(fig) * steps(fig) >= fig.h * (swells(fig) + 2),
    ensures
        0 <= joint_y(fig, s + 1) - joint_y(fig, s) <= 6 * FINE + 1,
{
    let c = swells(fig);
    let n = steps(fig);
    let scale = 2 * FINE * fig.h;
    let den = c * n;
    let a = scale * ((c + 2) * s - n);
    let x = scale * (c + 2);
    assert(scale * ((c + 2) * (s + 1) - n) == a + x) by (nonlinear_arith)
        requires
            a == scale * ((c + 2) * s - n),
            x == scale * (c + 2),
    ;
    assert(den >= 8) by (nonlinear_arith)
        requires
            den == c * n,
            c >= 1,
            n >= 8,
    ;
    let top = 6 * FINE;
    assert(0 <= x <= top * den) by (nonlinear_arith)
        requires
            x == scale * (c + 2),
            scale == 2 * FINE * fig.h,
            top == 6 * FINE,
            den == c * n,
            3 * c * n >= fig.h * (c + 2),
            fig.h >= 0,
            c >= 1,
    ;
    vstd::arithmetic::div_mod::lemma_fundamental_div_mod(a, den);
    vstd::arithmetic::div_mod::lemma_fundamental_div_mod(a + x, den);
    let q = a / den;
    let r = (a + x) / den;
    assert(0 <= r - q <= top + 1) by (nonlinear_arith)
        requires
            a == den * q + a % den,
            a + x == den * r + (a + x) % den,
            0 <= a % den < den,
            0 <= (a + x) % den < den,
            0 <= x <= top * den,
            den > 0,
    ;
}

/// How far a joint lies from the column's centre.
fn x_of_joint(fig: Figure, c: i64, n: i64, s: i64) -> (x: i64)
    requires
        fig.wf(),
        fig.pattern == Pattern::Tatewaku,
        c == swells(fig),
        n == steps(fig),
        1 <= c <= 14,
        8 <= n <= 6_500,
        0 <= s <= n + 1,
    ensures
        x == joint_x(fig, s as int),
        fig.pitch * FINE * 27 / 50 - 72_477_574 <= x <= fig.pitch * FINE * 27 / 50 + 72_477_574,
{
    let p: i64 = fig.pitch;
    proof {
        assert(0 <= (c + 2) * s <= 16 * 6_501 && 0 <= c * n <= 14 * 6_500) by (nonlinear_arith)
            requires
                1 <= c <= 14,
                0 <= s <= 6_501,
                8 <= n <= 6_500,
        ;
    }
    let turn: i64 = 2 * ((c + 2) * s) - c * n;
    assert(turn == 2 * (c + 2) * s - c * n) by (nonlinear_arith)
        requires
            turn == 2 * ((c + 2) * s) - c * n,
    ;
    let cos: i64 = cos_of(turn, 2 * n);
    let mean: i64 = p * FINE * 27 / 50;
    let swell: i64 = p * FINE * 6 / 25;
    proof {
        assert(-(72_477_573 * 0x100_0000_0000int) <= swell * cos <= 72_477_573 * 0x100_0000_0000int)
            by (nonlinear_arith)
            requires
                0 <= swell <= 72_477_573,
                -0x100_0000_0000int <= cos <= 0x100_0000_0000int,
        ;
    }
    let off: i128 = floor_div((swell as i128) * (cos as i128), COS_ONE as i128);
    mean + off as i64
}

/// A piece of a wavy line.
fn tatewaku(fig: Figure, i: i64, e: i64) -> (shape: Shape)
    requires
        fig.wf(),
        fig.pattern == Pattern::Tatewaku,
        -1 <= i <= fig.n + 1,
        0 <= e < fig.edges(),
    ensures
        shape == stroke_of(fig, 0, i as int, e as int),
        is_moderate(shape),
{
    let c: i64 = swell_count(fig);
    let n: i64 = step_count(fig);
    let p: i64 = fig.pitch;
    let s: i64 = e / 2;
    proof {
        lemma_column_place(fig, i as int);
        lemma_joint_step(fig, s as int);
    }
    let near: i64 = x_of_joint(fig, c, n, s);
    let far: i64 = x_of_joint(fig, c, n, s + 1);
    let ay: i64 = y_of_joint(fig, c, n, s);
    let by: i64 = y_of_joint(fig, c, n, s + 1);
    let cx: i64 = 2 * FINE * (i * p);
    if e % 2 == 0 {
        Shape::Line { m: FINE, ax: cx - near, ay, dx: near - far, dy: by - ay }
    } else {
        Shape::Line { m: FINE, ax: cx + near, ay, dx: far - near, dy: by - ay }
    }
}

fn row_count(fig: Figure) -> (r: i64)
    requires
        fig.wf(),
    ensures
        r == fig.rows(),
        0 <= r <= 200,
{
    let h: i64 = fig.h;
    let p: i64 = fig.pitch;
    proof {
        let d = p as int;
        assert(0 <= 6 * h / d <= 100 && 0 <= 2 * h / d <= 100 && 0 <= h as int / d <= 100)
            by (nonlinear_arith)
            requires
                0 <= h <= 1200,
                d >= 72,
        ;
    }
    match fig.pattern {
        Pattern::Seigaiha => 2 * h / p + 4,
        Pattern::Sayagata => 6 * h / p + 2,
        Pattern::Tatewaku => 0,
        _ => h / p + 3,
    }
}

fn column_count(fig: Figure) -> (r: i64)
    requires
        fig.wf(),
    ensures
        r == fig.columns(),
        0 < r <= 200,
{
    match fig.pattern {
        Pattern::Kikkou => 2 * fig.n + 3,
        Pattern::Sayagata => 12 * fig.n + 5,
        _ => fig.n + 3,
    }
}

fn edge_count(fig: Figure) -> (r: i64)
    requires
        fig.wf(),
    ensures
        r == fig.edges(),
        0 <= r <= 13_000,
{
    match fig.pattern {
        Pattern::Asanoha => 27,
        Pattern::Kanoko => 5,
        Pattern::Kikkou => 6,
        Pattern::Sayagata => 2,
        Pattern::Seigaiha => 3,
        Pattern::Shippou => 1,
        Pattern::Tatewaku => 2 * step_count(fig),
        _ => 0,
    }
}

/// The stroke `e` of the motif in row `k` and column `i`.
fn stroke(fig: Figure, k: i64, i: i64, e: i64) -> (shape: Shape)
    requires
        fig.wf(),
        -fig.rows() <= k <= fig.rows(),
        fig.first() <= i < fig.first() + fig.columns(),
        0 <= e < fig.edges(),
    ensures
        shape == stroke_of(fig, k as int, i as int, e as int),
        is_moderate(shape),
{
    match fig.pattern {
        Pattern::Asanoha => asanoha(fig, k, i, e),
        Pattern::Kanoko => kanoko(fig, k, i, e),
        Pattern::Kikkou => kikkou(fig, k, i, e),
        Pattern::Sayagata => sayagata(fig, k, i, e),
        Pattern::Seigaiha => seigaiha(fig, k, i, e),
        Pattern::Shippou => shippou(fig, k, i),
        Pattern::Tatewaku => tatewaku(fig, i, e),
        _ => Shape::Nothing,
    }
}

proof fn lemma_one_more_stroke(fig: Figure, k: int, q: int, x: int, y: int)
    requires
        q >= 0,
    ensures
        row_strokes(fig, k, q + 1, x, y) == (row_strokes(fig, k, q, x, y) || stroke_covers(
            fig,
            k,
            q,
            x,
            y,
        )),
{
    if row_strokes(fig, k, q, x, y) {
        let w = choose|w: int| 0 <= w < q && #[trigger] stroke_covers(fig, k, w, x, y);
        assert(0 <= w < q + 1 && stroke_covers(fig, k, w, x, y));
    }
}

proof fn lemma_one_more_fan(fig: Figure, k: int, q: int, x: int, y: int)
    requires
        q >= 0,
    ensures
        row_hides(fig, k, q + 1, x, y) == (row_hides(fig, k, q, x, y) || fan_covers(
            fig,
            k,
            q,
            x,
            y,
        )),
{
    if row_hides(fig, k, q, x, y) {
        let w = choose|w: int| 0 <= w < q && #[trigger] fan_covers(fig, k, w, x, y);
        assert(0 <= w < q + 1 && fan_covers(fig, k, w, x, y));
    }
}

proof fn lemma_no_fans(fig: Figure, k: int, x: int, y: int)
    requires
        fig.pattern != Pattern::Seigaiha,
    ensures
        !row_hides(fig, k, fig.columns(), x, y),
{
    reveal(fan_covers);
}

/// Erase what the fans of a row hide.
fn hide_row(canvas: &mut Canvas, fig: Figure, k: i64)
    requires
        old(canvas).wf(),
        fig.wf(),
        old(canvas).height == fig.h,
        -fig.rows() <= k <= fig.rows(),
    ensures
        final(canvas).wf(),
        final(canvas).height == old(canvas).height,
        forall|sx: int, sy: int|
            0 <= sx < SS_WIDTH && 0 <= sy < old(canvas).height ==> #[trigger] final(canvas).at(
                sx,
                sy,
            ) == (!row_hides(fig, k as int, fig.columns(), 2 * sx + 1, 2 * sy + 1) && old(
                canvas,
            ).at(sx, sy)),
{
    let ghost before = *canvas;
    let ghost height = canvas.height;
    if fig.pattern != Pattern::Seigaiha {
        proof {
            assert forall|sx: int, sy: int| 0 <= sx < SS_WIDTH && 0 <= sy < height implies #[trigger] canvas.at(
                sx,
                sy,
            ) == (!row_hides(fig, k as int, fig.columns(), 2 * sx + 1, 2 * sy + 1) && before.at(
                sx,
                sy,
            )) by {
                lemma_no_fans(fig, k as int, 2 * sx + 1, 2 * sy + 1);
            }
        }
        return ;
    }
    let columns: i64 = column_count(fig);
    let mut q: i64 = 0;
    while q < columns
        invariant
            0 <= q <= columns,
            columns == fig.columns(),
            columns <= 200,
            fig.wf(),
            fig.pattern == Pattern::Seigaiha,
            -fig.rows() <= k <= fig.rows(),
            canvas.wf(),
            canvas.height == height,
            forall|sx: int, sy: int|
                0 <= sx < SS_WIDTH && 0 <= sy < height ==> #[trigger] canvas.at(sx, sy) == (
                !row_hides(fig, k as int, q as int, 2 * sx + 1, 2 * sy + 1) && before.at(sx, sy)),
        decreases columns - q,
    {
        let ghost previous = *canvas;
        let shape: Shape = fan(fig, k, q - 1);
        canvas.paint(shape, false);
        proof {
            assert forall|sx: int, sy: int|
                0 <= sx < SS_WIDTH && 0 <= sy < height implies #[trigger] canvas.at(sx, sy) == (
            !row_hides(fig, k as int, q + 1, 2 * sx + 1, 2 * sy + 1) && before.at(sx, sy)) by {
                lemma_one_more_fan(fig, k as int, q as int, 2 * sx + 1, 2 * sy + 1);
                reveal(fan_covers);
                assert(previous.at(sx, sy) == (!row_hides(
                    fig,
                    k as int,
                    q as int,
                    2 * sx + 1,
                    2 * sy + 1,
                ) && before.at(sx, sy)));
            }
        }
        q = q + 1;
    }
}

/// Draw one row of a lattice.
fn draw_row(canvas: &mut Canvas, fig: Figure, k: i64)
    requires
        old(canvas).wf(),
        fig.wf(),
        old(canvas).height == fig.h,
        -fig.rows() <= k <= fig.rows(),
    ensures
        final(canvas).wf(),
        final(canvas).height == old(canvas).height,
        forall|sx: int, sy: int|
            0 <= sx < SS_WIDTH && 0 <= sy < old(canvas).height ==> #[trigger] final(canvas).at(
                sx,
                sy,
            ) == (row_strokes(
                fig,
                k as int,
                fig.columns() * fig.edges(),
                2 * sx + 1,
                2 * sy + 1,
            ) || (!row_hides(fig, k as int, fig.columns(), 2 * sx + 1, 2 * sy + 1) && old(
                canvas,
            ).at(sx, sy))),
{
    hide_row(canvas, fig, k);
    let ghost before = *canvas;
    let ghost height = canvas.height;
    let columns: i64 = column_count(fig);
    let edges: i64 = edge_count(fig);
    proof {
        assert(0 <= columns * edges <= 200 * 13_000) by (nonlinear_arith)
            requires
                0 <= columns <= 200,
                0 <= edges <= 13_000,
        ;
    }
    let total: i64 = columns * edges;
    let first: i64 = if fig.pattern == Pattern::Sayagata {
        -2
    } else {
        -1
    };
    let mut q: i64 = 0;
    while q < total
        invariant
            0 <= q <= total,
            total == columns * edges,
            total <= 200 * 13_000,
            columns == fig.columns(),
            edges == fig.edges(),
            first == fig.first(),
            -2 <= first <= -1,
            fig.wf(),
            -fig.rows() <= k <= fig.rows(),
            canvas.wf(),
            canvas.height == height,
            forall|sx: int, sy: int|
                0 <= sx < SS_WIDTH && 0 <= sy < height ==> #[trigger] canvas.at(sx, sy) == (
                row_strokes(fig, k as int, q as int, 2 * sx + 1, 2 * sy + 1) || before.at(sx, sy)),
        decreases total - q,
    {
        let ghost previous = *canvas;
        proof {
            assert(edges > 0 && 0 <= q / edges < columns) by (nonlinear_arith)
                requires
                    0 <= q < columns * edges,
                    edges >= 0 || edges <= 0,
                    columns >= 0,
                    edges >= 0,
            ;
            assert(q / edges <= q) by (nonlinear_arith)
                requires
                    edges >= 1,
                    q >= 0,
            ;
        }
        let shape: Shape = stroke(fig, k, first + q / edges, q % edges);
        canvas.paint(shape, true);
        proof {
            assert forall|sx: int, sy: int|
                0 <= sx < SS_WIDTH && 0 <= sy < height implies #[trigger] canvas.at(sx, sy) == (
            row_strokes(fig, k as int, q + 1, 2 * sx + 1, 2 * sy + 1) || before.at(sx, sy)) by {
                lemma_one_more_stroke(fig, k as int, q as int, 2 * sx + 1, 2 * sy + 1);
                reveal(stroke_covers);
                assert(previous.at(sx, sy) == (row_strokes(
                    fig,
                    k as int,
                    q as int,
                    2 * sx + 1,
                    2 * sy + 1,
                ) || before.at(sx, sy)));
            }
        }
        q = q + 1;
    }
}

/// Draw a lattice, row by row from the top.
fn draw_lattice(canvas: &mut Canvas, fig: Figure)
    requires
        old(canvas).wf(),
        fig.wf(),
        old(canvas).height == fig.h,
        forall|sx: int, sy: int|
            0 <= sx < SS_WIDTH && 0 <= sy < fig.h ==> !#[trigger] old(canvas).at(sx, sy),
    ensures
        final(canvas).wf(),
        final(canvas).height == old(canvas).height,
        forall|sx: int, sy: int|
            0 <= sx < SS_WIDTH && 0 <= sy < fig.h ==> #[trigger] final(canvas).at(sx, sy)
                == lattice_ink(fig, fig.rows(), 2 * sx + 1, 2 * sy + 1),
{
    let rows: i64 = row_count(fig);
    let mut k: i64 = -rows;
    while k <= rows
        invariant
            -rows <= k <= rows + 1,
            rows == fig.rows(),
            0 <= rows <= 200,
            fig.wf(),
            canvas.wf(),
            canvas.height == fig.h,
            forall|sx: int, sy: int|
                0 <= sx < SS_WIDTH && 0 <= sy < fig.h ==> #[trigger] canvas.at(sx, sy)
                    == lattice_ink(fig, k - 1, 2 * sx + 1, 2 * sy + 1),
        decreases rows + 1 - k,
    {
        let ghost previous = *canvas;
        draw_row(canvas, fig, k);
        proof {
            assert forall|sx: int, sy: int| 0 <= sx < SS_WIDTH && 0 <= sy < fig.h implies #[trigger] canvas.at(
                sx,
                sy,
            ) == lattice_ink(fig, k as int, 2 * sx + 1, 2 * sy + 1) by {
                assert(previous.at(sx, sy) == lattice_ink(fig, k - 1, 2 * sx + 1, 2 * sy + 1));
            }
        }
        k = k + 1;
    }
}

fn check_row_count(fig: Figure) -> (c: i64)
    requires
        fig.wf(),
    ensures
        c == check_rows(fig),
        1 <= c <= 40,
{
    let p: i64 = fig.pitch;
    let c: i64 = (4 * fig.h + p) / (2 * p);
    proof {
        let a = 4 * fig.h + p;
        assert(0 <= c <= 40) by (nonlinear_arith)
            requires
                c == a / (2 * p),
                0 <= a <= 4800 + p,
                p >= 72,
        ;
    }
    if c < 1 {
        1
    } else {
        c
    }
}

fn scale_row_count(fig: Figure) -> (c: i64)
    requires
        fig.wf(),
    ensures
        is_scale_rows(fig, c as int),
        1 <= c <= 40,
{
    let p: i64 = fig.pitch;
    let h: i64 = fig.h;
    proof {
        assert(5_184 <= p * p <= 331_776 && 0 <= h * h <= 1_440_000) by (nonlinear_arith)
            requires
                72 <= p <= 576,
                0 <= h <= 1200,
        ;
    }
    let p2: i64 = p * p;
    let h2: i64 = h * h;
    let mut c: i64 = 1;
    loop
        invariant
            fig.wf(),
            p2 == fig.pitch * fig.pitch,
            h2 == fig.h * fig.h,
            5_184 <= p2 <= 331_776,
            0 <= h2 <= 1_440_000,
            1 <= c <= 40,
            c == 1 || 3 * ((2 * c - 1) * (2 * c - 1)) * p2 <= 16 * h2,
        decreases 40 - c,
    {
        proof {
            assert(0 <= (2 * c + 1) * (2 * c + 1) <= 6_561) by (nonlinear_arith)
                requires
                    1 <= c <= 40,
            ;
            let z = 3 * ((2 * c + 1) * (2 * c + 1));
            assert(0 <= z * p2 <= 19_683 * 331_776) by (nonlinear_arith)
                requires
                    0 <= z <= 19_683,
                    0 <= p2 <= 331_776,
            ;
            if c == 40 {
                assert((2 * c + 1) * (2 * c + 1) == 6_561) by (nonlinear_arith)
                    requires
                        c == 40,
                ;
                assert(z * p2 >= 19_683 * 5_184) by (nonlinear_arith)
                    requires
                        z == 19_683,
                        p2 >= 5_184,
                ;
            }
        }
        if 3 * ((2 * c + 1) * (2 * c + 1)) * p2 > 16 * h2 {
            return c;
        }
        c = c + 1;
        assert(2 * c - 1 == 2 * (c - 1) + 1);
    }
}

proof fn lemma_scale_rows_are_unique(fig: Figure, a: int, b: int)
    requires
        fig.wf(),
        is_scale_rows(fig, a),
        is_scale_rows(fig, b),
    ensures
        a == b,
{
    if a < b {
        lemma_fewer_scale_rows(fig, a, b);
    } else if b < a {
        lemma_fewer_scale_rows(fig, b, a);
    }
}

proof fn lemma_fewer_scale_rows(fig: Figure, a: int, b: int)
    requires
        fig.wf(),
        is_scale_rows(fig, a),
        a < b,
    ensures
        !is_scale_rows(fig, b),
{
    let p2 = fig.pitch * fig.pitch;
    let u = 2 * a + 1;
    let w = 2 * b - 1;
    assert(u * u <= w * w) by (nonlinear_arith)
        requires
            0 <= u <= w,
    ;
    assert(p2 >= 0) by (nonlinear_arith)
        requires
            p2 == fig.pitch * fig.pitch,
    ;
    assert(3 * (u * u) * p2 <= 3 * (w * w) * p2) by (nonlinear_arith)
        requires
            u * u <= w * w,
            p2 >= 0,
    ;
}

fn check_at(fig: Figure, c: i64, x: i64, y: i64) -> (r: bool)
    requires
        fig.wf(),
        c == check_rows(fig),
        1 <= c <= 40,
        0 <= x <= 2_400,
        0 <= y <= 2_400,
    ensures
        r == check_ink(fig, x as int, y as int),
{
    proof {
        assert(0 <= y * c <= 96_000) by (nonlinear_arith)
            requires
                0 <= y <= 2_400,
                1 <= c <= 40,
        ;
        let p = fig.pitch as int;
        let h2 = 2 * fig.h;
        let z = y * c;
        assert(0 <= x as int / p <= x && 0 <= z / h2 <= z) by (nonlinear_arith)
            requires
                x >= 0,
                p >= 1,
                z >= 0,
                h2 >= 1,
        ;
    }
    (x / fig.pitch + y * c / (2 * fig.h)) % 2 == 0
}

fn scale_at(fig: Figure, c: i64, x: i64, y: i64) -> (r: bool)
    requires
        fig.wf(),
        1 <= c <= 40,
        0 <= x <= 2_400,
        0 <= y <= 2_400,
    ensures
        r == scale_ink(fig, c as int, x as int, y as int),
{
    let p: i64 = fig.pitch;
    let h: i64 = fig.h;
    proof {
        assert(0 <= y * c <= 96_000) by (nonlinear_arith)
            requires
                0 <= y <= 2_400,
                1 <= c <= 40,
        ;
    }
    let yc: i64 = y * c;
    let j: i64 = yc / (2 * h);
    proof {
        vstd::arithmetic::div_mod::lemma_fundamental_div_mod(yc as int, 2 * h as int);
        assert(0 <= j <= yc) by (nonlinear_arith)
            requires
                j == yc as int / (2 * h as int),
                yc >= 0,
                h >= 1,
        ;
        assert(0 <= 2 * h * j <= yc) by (nonlinear_arith)
            requires
                yc == (2 * h) * j + yc as int % (2 * h as int),
                yc as int % (2 * h as int) >= 0,
                h >= 1,
                j >= 0,
        ;
    }
    let depth: i64 = yc - 2 * h * j;
    let z: i64 = (x + if odd(j) {
        p
    } else {
        0
    }) % (2 * p);
    let off: i64 = if z <= p {
        z
    } else {
        2 * p - z
    };
    proof {
        assert(0 <= off * (2 * h) <= 576 * 2_400 && 0 <= depth * p <= 96_000 * 576)
            by (nonlinear_arith)
            requires
                0 <= off <= 576,
                0 <= h <= 1200,
                0 <= depth <= 96_000,
                0 <= p <= 576,
        ;
    }
    off * (2 * h) <= depth * p
}

fn feather_at(fig: Figure, c: i64, x: i64, y: i64) -> (r: bool)
    requires
        fig.wf(),
        c == check_rows(fig),
        1 <= c <= 40,
        0 <= x <= 2_400,
        0 <= y <= 2_400,
    ensures
        r == feather_ink(fig, x as int, y as int),
{
    let p: i64 = fig.pitch;
    let h: i64 = fig.h;
    let i: i64 = 2 * x / p;
    proof {
        vstd::arithmetic::div_mod::lemma_fundamental_div_mod(2 * x as int, p as int);
        assert(0 <= i <= 2 * x) by (nonlinear_arith)
            requires
                i == (2 * x as int) / (p as int),
                x >= 0,
                p >= 1,
        ;
        assert(0 <= 2 * p * i <= 4 * x) by (nonlinear_arith)
            requires
                2 * x == p * i + (2 * x as int) % (p as int),
                (2 * x as int) % (p as int) >= 0,
                p >= 1,
                i >= 0,
        ;
    }
    let from_shaft: i64 = 4 * x - (2 * p * i + p);
    let reach: i64 = if from_shaft < 0 {
        -from_shaft
    } else {
        from_shaft
    };
    let edge: i64 = if (i / 2) % 2 == 1 {
        reach - p
    } else {
        p - reach
    };
    let top: i64 = 4 * y - edge;
    proof {
        assert(-40_000_000 <= 2 * c * top <= 40_000_000) by (nonlinear_arith)
            requires
                1 <= c <= 40,
                -400_000 <= top <= 400_000,
        ;
    }
    let at: i64 = 2 * c * top - if odd(i) {
        8 * h
    } else {
        0
    };
    let turn: i64 = 16 * h;
    // Whole turns keep the remainder and make it positive.
    let lifted: i64 = at + turn * 0x1_0000;
    proof {
        vstd::arithmetic::div_mod::lemma_mod_multiples_vanish(
            0x1_0000,
            at as int,
            turn as int,
        );
        assert(turn * 0x1_0000 == 0x1_0000 * turn);
        assert(lifted as int % turn as int == at as int % turn as int);
    }
    let z: i64 = lifted % turn;
    reach >= 24 && z < 8 * h
}

/// Fill the samples of a pattern that is an area rather than strokes.
fn fill(canvas: &mut Canvas, fig: Figure)
    requires
        old(canvas).wf(),
        fig.wf(),
        old(canvas).height == fig.h,
        fig.pattern == Pattern::Ichimatsu || fig.pattern == Pattern::Uroko || fig.pattern
            == Pattern::Yagasuri,
    ensures
        final(canvas).wf(),
        final(canvas).height == old(canvas).height,
        forall|sx: int, sy: int|
            0 <= sx < SS_WIDTH && 0 <= sy < fig.h ==> #[trigger] final(canvas).at(sx, sy) == inked(
                fig,
                2 * sx + 1,
                2 * sy + 1,
            ),
{
    let checks: i64 = check_row_count(fig);
    let scales: i64 = scale_row_count(fig);
    let height: usize = canvas.height;
    let mut sy: usize = 0;
    while sy < height
        invariant
            sy <= height,
            canvas.wf(),
            canvas.height == height,
            height == fig.h,
            fig.wf(),
            fig.pattern == Pattern::Ichimatsu || fig.pattern == Pattern::Uroko || fig.pattern
                == Pattern::Yagasuri,
            checks == check_rows(fig),
            1 <= checks <= 40,
            is_scale_rows(fig, scales as int),
            1 <= scales <= 40,
            forall|x: int, y: int|
                0 <= x < SS_WIDTH && 0 <= y < sy ==> #[trigger] canvas.at(x, y) == inked(
                    fig,
                    2 * x + 1,
                    2 * y + 1,
                ),
        decreases height - sy,
    {
        let mut sx: usize = 0;
        while sx < SS_WIDTH
            invariant
                sx <= SS_WIDTH,
                sy < height,
                canvas.wf(),
                canvas.height == height,
                height == fig.h,
                fig.wf(),
                fig.pattern == Pattern::Ichimatsu || fig.pattern == Pattern::Uroko || fig.pattern
                    == Pattern::Yagasuri,
                checks == check_rows(fig),
                1 <= checks <= 40,
                is_scale_rows(fig, scales as int),
                1 <= scales <= 40,
                forall|x: int, y: int|
                    0 <= x < SS_WIDTH && 0 <= y < height && (y < sy || (y == sy && x < sx))
                        ==> #[trigger] canvas.at(x, y) == inked(fig, 2 * x + 1, 2 * y + 1),
            decreases SS_WIDTH - sx,
        {
            let x: i64 = 2 * (sx as i64) + 1;
            let y: i64 = 2 * (sy as i64) + 1;
            let value: bool = match fig.pattern {
                Pattern::Ichimatsu => check_at(fig, checks, x, y),
                Pattern::Uroko => scale_at(fig, scales, x, y),
                _ => feather_at(fig, checks, x, y),
            };
            proof {
                if fig.pattern == Pattern::Uroko {
                    assert(is_scale_rows(fig, scales as int));
                    assert forall|c: int| #[trigger]
                        is_scale_rows(fig, c) implies c == scales by {
                        lemma_scale_rows_are_unique(fig, c, scales as int);
                    }
                }
                assert(value == inked(fig, x as int, y as int));
            }
            canvas.put(sx, sy, value);
            sx = sx + 1;
        }
        sy = sy + 1;
    }
}

/// Draw a figure.
pub fn draw(fig: Figure) -> (canvas: Canvas)
    requires
        fig.wf(),
        fig.h % 3 == 0,
    ensures
        canvas.wf(),
        canvas.height == fig.h,
        forall|sx: int, sy: int|
            0 <= sx < SS_WIDTH && 0 <= sy < fig.h ==> #[trigger] canvas.at(sx, sy) == inked(
                fig,
                2 * sx + 1,
                2 * sy + 1,
            ),
{
    let mut canvas: Canvas = Canvas::new((fig.h / 3) as usize);
    match fig.pattern {
        Pattern::Ichimatsu | Pattern::Uroko | Pattern::Yagasuri => fill(&mut canvas, fig),
        _ => draw_lattice(&mut canvas, fig),
    }
    canvas
}

} // verus!
