//! Ten names mean ten pictures: each two bands differ in some pixel.

use crate::raster::bitmap::Bitmap;
#[allow(unused_imports)]
use crate::raster::wagara::bands::{
    is_dark, is_spot, lemma_asanoha, lemma_checks, lemma_dark, lemma_feathers, lemma_kanoko_dark,
    lemma_kikkou, lemma_near_end, lemma_nothing_hidden, lemma_sayagata, lemma_scales,
    lemma_seigaiha, lemma_shippou, lemma_stroke, lemma_usual, sample, usual, usual_checks,
    usual_feathers, usual_scales,
};
use crate::raster::wagara::figures::{Figure, Pattern};
use crate::raster::wagara::shapes::Shape;
use vstd::prelude::*;
#[allow(unused_imports)]
use crate::raster::wagara::figures::{
    cosine, fan_covers, fan_of, fret_has, fret_v, inked, is_odd, joint_x, joint_y, lattice_ink,
    pow2_small, row_hides, row_strokes, shell_corner, spot_corner, steps, stroke_covers, stroke_of,
    swells, COS_ONE, FINE,
};
#[allow(unused_imports)]
use crate::raster::wagara::options::default_options;
#[allow(unused_imports)]
use crate::raster::wagara::render::{figure_votes, is_band, is_figure};
#[allow(unused_imports)]
use crate::raster::wagara::shapes::{
    box_of, covers, near_circle, near_line, near_slant, root_ceil, root_floor, spread,
};

verus! {

/// Whether one stroke of one motif lies over a sample.
spec fn is_under(fig: Figure, k: int, i: int, e: int, x: int, y: int) -> bool {
    covers(stroke_of(fig, k, i, e), x, y)
}

/// Whether no stroke of a row lies over a sample.
spec fn is_clear(fig: Figure, k: int, x: int, y: int) -> bool {
    forall|i: int, e: int|
        fig.first() <= i < fig.first() + fig.columns() && 0 <= e < fig.edges()
            ==> !#[trigger] is_under(fig, k, i, e, x, y)
}

proof fn lemma_clear_row(fig: Figure, k: int, x: int, y: int)
    requires
        fig.edges() > 0,
        is_clear(fig, k, x, y),
    ensures
        !row_strokes(fig, k, fig.columns() * fig.edges(), x, y),
{
    reveal(stroke_covers);
    let n = fig.edges();
    let c = fig.columns();
    assert forall|q: int| 0 <= q < c * n implies !#[trigger] stroke_covers(fig, k, q, x, y) by {
        let d = q / n;
        let e = q % n;
        assert(0 <= d < c && 0 <= e < n) by (nonlinear_arith)
            requires
                n > 0,
                0 <= q < c * n,
                d == q / n,
                e == q % n,
        ;
        assert(!is_under(fig, k, fig.first() + d, e, x, y));
    }
}

/// A sample that lies under no stroke is blank.
proof fn lemma_blank(fig: Figure, k: int, x: int, y: int)
    requires
        fig.pattern != Pattern::Seigaiha,
        fig.edges() > 0,
        k <= fig.rows(),
        forall|j: int| -fig.rows() <= j <= fig.rows() ==> #[trigger] is_clear(fig, j, x, y),
    ensures
        !lattice_ink(fig, k, x, y),
    decreases k + fig.rows() + 1,
{
    if k >= -fig.rows() {
        assert(is_clear(fig, k, x, y));
        lemma_clear_row(fig, k, x, y);
        lemma_blank(fig, k - 1, x, y);
    }
}

proof fn lemma_light(fig: Figure, x: int, y: int)
    requires
        forall|a: int, b: int| is_spot(a) && is_spot(b) ==> !#[trigger] sample(fig, x, y, a, b),
    ensures
        !is_dark(fig, x, y),
{
    assert(!sample(fig, x, y, 1, 1) && !sample(fig, x, y, 3, 1) && !sample(fig, x, y, 5, 1));
    assert(!sample(fig, x, y, 1, 3) && !sample(fig, x, y, 3, 3) && !sample(fig, x, y, 5, 3));
    assert(!sample(fig, x, y, 1, 5) && !sample(fig, x, y, 3, 5) && !sample(fig, x, y, 5, 5));
}

/// Five samples make a pixel black.
proof fn lemma_five(fig: Figure, x: int, y: int, rows: (int, int, int))
    requires
        is_spot(rows.0),
        is_spot(rows.1),
        rows.0 != rows.1,
        sample(fig, x, y, 1, rows.0),
        sample(fig, x, y, 3, rows.0),
        sample(fig, x, y, 1, rows.1),
        sample(fig, x, y, 3, rows.1),
        sample(fig, x, y, 5, rows.2),
        rows.2 == rows.0 || rows.2 == rows.1,
    ensures
        is_dark(fig, x, y),
{
}

/// The flat sides of a fawn spot.
proof fn lemma_kanoko_side(e: int, a: int, y: int)
    requires
        is_spot(a),
        e == 0 && 127 <= y <= 131 || e == 2 && 201 <= y <= 203,
    ensures
        inked(usual(Pattern::Kanoko), a, y),
{
    let fig = usual(Pattern::Kanoko);
    let shape = stroke_of(fig, 0, 0, e);
    let side: int = if e == 0 {
        -936
    } else {
        936
    };
    assert(shape == Shape::Slant {
        m: 25,
        ax: side as i64,
        au: (4200 + side) as i64,
        av: 0,
        dx: (-2 * side) as i64,
        du: 0,
        dv: 0,
    }) by (nonlinear_arith)
        requires
            e == 0 && side == -936 || e == 2 && side == 936,
            shape == stroke_of(usual(Pattern::Kanoko), 0, 0, e),
    ;
    let wx = 25 * a - side;
    let wu = 25 * y - 4200 - side;
    let dx = -2 * side;
    assert(near_slant(25, wx, wu, 0, dx, 0, 0)) by (nonlinear_arith)
        requires
            -150 <= wu <= 150,
            dx == 1872 && 936 < wx < 1072 || dx == -1872 && -936 < wx < -800,
    ;
    assert(covers(shape, a, y));
    lemma_nothing_hidden(fig, a, y);
    lemma_stroke(fig, 0, 0, e, a, y);
}

/// The fret's stroke that starts at the left edge.
proof fn lemma_sayagata_start(a: int, b: int)
    requires
        1 <= a <= 5,
        1 <= b <= 5,
        a * a + b * b <= 36,
    ensures
        inked(usual(Pattern::Sayagata), a, 168 + b),
{
    let fig = usual(Pattern::Sayagata);
    let y = 168 + b;
    assert(fret_has(0, 0, 1)) by {
        assert(fret_v()[0] == 0xc03u16);
        assert(pow2_small(0) == 1);
        assert(0xc03int % 2 == 1);
    }
    let shape = stroke_of(fig, 0, 0, 1);
    assert(shape == Shape::Line { m: 1, ax: 0, ay: 168, dx: 32, dy: -32i64 })
        by (nonlinear_arith)
        requires
            fret_has(0, 0, 1),
            shape == stroke_of(usual(Pattern::Sayagata), 0, 0, 1),
    ;
    lemma_near_end(1, a, b, 32, -32);
    assert(a * 1 == a && y * 1 == y);
    assert(covers(shape, a, y));
    lemma_nothing_hidden(fig, a, y);
    lemma_stroke(fig, 0, 0, 1, a, y);
}

/// The lower end of the circle above the band.
proof fn lemma_shippou_above(a: int, y: int)
    requires
        is_spot(a),
        y == 115 || y == 117,
    ensures
        inked(usual(Pattern::Shippou), a, y),
{
    let fig = usual(Pattern::Shippou);
    let shape = stroke_of(fig, -1, 0, 0);
    assert(shape == Shape::Ring { cx: 0, cy: -24i64, r2: 18_432, reach: 150, upper: false })
        by (nonlinear_arith)
        requires
            shape == stroke_of(usual(Pattern::Shippou), -1, 0, 0),
    ;
    let wy = y + 24;
    let d2 = a * a + wy * wy;
    assert(near_circle(d2, 18_432)) by (nonlinear_arith)
        requires
            d2 == a * a + wy * wy,
            a == 1 || a == 3 || a == 5,
            wy == 139 || wy == 141,
    ;
    assert(a * 1 == a && y * 1 == y);
    assert(covers(shape, a, y));
    lemma_nothing_hidden(fig, a, y);
    lemma_stroke(fig, -1, 0, 0, a, y);
}

/// Between its upper and lower sides a hexagon is blank along its middle line.
proof fn lemma_kikkou_blank(a: int, y: int)
    requires
        is_spot(a),
        169 <= y <= 173 || 31 <= y <= 35,
    ensures
        !inked(usual(Pattern::Kikkou), a, y),
{
    let fig = usual(Pattern::Kikkou);
    assert forall|k: int| -fig.rows() <= k <= fig.rows() implies #[trigger] is_clear(
        fig,
        k,
        a,
        y,
    ) by {
        assert forall|i: int, e: int|
            fig.first() <= i < fig.first() + fig.columns() && 0 <= e
                < fig.edges() implies !#[trigger] is_under(fig, k, i, e, a, y) by {
            lemma_kikkou_stroke(k, i, e, a, y);
        }
    }
    lemma_blank(fig, fig.rows(), a, y);
}

proof fn lemma_kikkou_stroke(k: int, i: int, e: int, a: int, y: int)
    requires
        -4 <= k <= 4,
        -1 <= i <= 17,
        0 <= e < 6,
        is_spot(a),
        169 <= y <= 173 || 31 <= y <= 35,
    ensures
        !is_under(usual(Pattern::Kikkou), k, i, e, a, y),
{
    let shape = stroke_of(usual(Pattern::Kikkou), k, i, e);
    let c = shell_corner(144, e);
    let d = shell_corner(144, (e + 1) % 6);
    let cv = 288 * k + if is_odd(i) {
        144int
    } else {
        0
    };
    assert(shape == Shape::Slant {
        m: 3,
        ax: (432 * i + c.0) as i64,
        au: 504,
        av: (cv + c.1) as i64,
        dx: (d.0 - c.0) as i64,
        du: 0,
        dv: (d.1 - c.1) as i64,
    }) by (nonlinear_arith)
        requires
            shape == stroke_of(usual(Pattern::Kikkou), k, i, e),
            c == shell_corner(144, e),
            d == shell_corner(144, (e + 1) % 6),
            cv == 288 * k + if is_odd(i) {
                144int
            } else {
                0
            },
    ;
    if (e == 1 || e == 4) && i == 0 {
        let v = cv + c.1;
        assert(v >= 144 || v <= -432 || v == -144);
    }
}

/// The middle of a circle is blank.
proof fn lemma_shippou_blank(a: int, b: int)
    requires
        is_spot(a),
        is_spot(b),
    ensures
        !inked(usual(Pattern::Shippou), a, 168 + b),
{
    let fig = usual(Pattern::Shippou);
    let y = 168 + b;
    assert forall|k: int| -fig.rows() <= k <= fig.rows() implies #[trigger] is_clear(
        fig,
        k,
        a,
        y,
    ) by {
        assert forall|i: int, e: int|
            fig.first() <= i < fig.first() + fig.columns() && 0 <= e
                < fig.edges() implies !#[trigger] is_under(fig, k, i, e, a, y) by {
            lemma_shippou_stroke(k, i, a, b);
        }
    }
    lemma_blank(fig, fig.rows(), a, y);
}

proof fn lemma_shippou_stroke(k: int, i: int, a: int, b: int)
    requires
        -4 <= k <= 4,
        -1 <= i <= 13,
        is_spot(a),
        is_spot(b),
    ensures
        !is_under(usual(Pattern::Shippou), k, i, 0, a, 168 + b),
{
    let shape = stroke_of(usual(Pattern::Shippou), k, i, 0);
    assert(shape == Shape::Ring {
        cx: (192 * i) as i64,
        cy: (168 + 192 * k) as i64,
        r2: 18_432,
        reach: 150,
        upper: false,
    }) by (nonlinear_arith)
        requires
            shape == stroke_of(usual(Pattern::Shippou), k, i, 0),
    ;
    let wx = a - 192 * i;
    let wy = b - 192 * k;
    let d2 = wx * wx + wy * wy;
    assert(a * 1 == a && (168 + b) * 1 == 168 + b);
    assert(!near_circle(d2, 18_432) || wx > 150 || wx < -150 || wy > 150 || wy < -150)
        by (nonlinear_arith)
        requires
            d2 == wx * wx + wy * wy,
            wx > 150 || wx < -150 || wy > 150 || wy < -150 || 1 <= wx <= 5 && 1 <= wy <= 5,
    ;
}

/// Above and below the fawn spot the left edge is blank.
proof fn lemma_kanoko_blank(a: int, y: int)
    requires
        is_spot(a),
        1 <= y <= 5 || 313 <= y <= 317,
    ensures
        !inked(usual(Pattern::Kanoko), a, y),
{
    let fig = usual(Pattern::Kanoko);
    assert forall|k: int| -fig.rows() <= k <= fig.rows() implies #[trigger] is_clear(
        fig,
        k,
        a,
        y,
    ) by {
        assert forall|i: int, e: int|
            fig.first() <= i < fig.first() + fig.columns() && 0 <= e
                < fig.edges() implies !#[trigger] is_under(fig, k, i, e, a, y) by {
            lemma_kanoko_stroke(k, i, e, a, y);
        }
    }
    lemma_blank(fig, fig.rows(), a, y);
}

proof fn lemma_kanoko_stroke(k: int, i: int, e: int, a: int, y: int)
    requires
        -5 <= k <= 5,
        -1 <= i <= 17,
        0 <= e < 5,
        is_spot(a),
        1 <= y <= 5 || 313 <= y <= 317,
    ensures
        !is_under(usual(Pattern::Kanoko), k, i, e, a, y),
{
    let shape = stroke_of(usual(Pattern::Kanoko), k, i, e);
    let c = if e == 4 {
        (0, 0)
    } else {
        spot_corner(72, e)
    };
    let d = if e == 4 {
        (0, 0)
    } else {
        spot_corner(72, (e + 1) % 4)
    };
    let cx = 3600 * i + if is_odd(k) {
        1800int
    } else {
        0
    };
    assert(shape == Shape::Slant {
        m: 25,
        ax: (cx + c.0) as i64,
        au: (4200 + c.1) as i64,
        av: (1800 * k) as i64,
        dx: (d.0 - c.0) as i64,
        du: (d.1 - c.1) as i64,
        dv: 0,
    }) by (nonlinear_arith)
        requires
            shape == stroke_of(usual(Pattern::Kanoko), k, i, e),
            c == (if e == 4 {
                (0, 0)
            } else {
                spot_corner(72, e)
            }),
            d == (if e == 4 {
                (0, 0)
            } else {
                spot_corner(72, (e + 1) % 4)
            }),
            cx == 3600 * i + if is_odd(k) {
                1800int
            } else {
                0
            },
    ;
    assert(-936 <= c.0 <= 936 && -936 <= c.1 <= 936 && -936 <= d.0 <= 936 && -936 <= d.1 <= 936)
        by (nonlinear_arith)
        requires
            0 <= e < 5,
            c == (if e == 4 {
                (0, 0)
            } else {
                spot_corner(72, e)
            }),
            d == (if e == 4 {
                (0, 0)
            } else {
                spot_corner(72, (e + 1) % 4)
            }),
    ;
    if !is_odd(k) && i == 0 {
        assert(k == 0 || k == 2 || k == 4 || k == -2 || k == -4);
    }
}

/// A point well off the line of a slanting stroke is not under it.
proof fn lemma_off_the_line(wx: int, wy: int, dy: int)
    requires
        dy == 32 || dy == -32,
        dy == -32 ==> wx + wy >= 20 || wx + wy <= -20,
        dy == 32 ==> wx - wy >= 20 || wx - wy <= -20,
    ensures
        !near_line(1, wx, wy, 32, dy),
{
    let off = if dy < 0 {
        wx + wy
    } else {
        wx - wy
    };
    let other = if dy < 0 {
        wx - wy
    } else {
        wx + wy
    };
    assert(off * off >= 400) by (nonlinear_arith)
        requires
            off >= 20 || off <= -20,
    ;
    assert(2 * (wx * wx + wy * wy) == off * off + other * other) by (nonlinear_arith)
        requires
            off == wx + wy && other == wx - wy || off == wx - wy && other == wx + wy,
    ;
    assert(other * other >= 0) by (nonlinear_arith);
    let ex = wx - 32;
    let ey = wy - dy;
    let far = other - 64;
    assert(2 * (ex * ex + ey * ey) == off * off + far * far) by (nonlinear_arith)
        requires
            off == ex + ey && far == ex - ey || off == ex - ey && far == ex + ey,
    ;
    assert(far * far >= 0) by (nonlinear_arith);
    let cross = wx * dy - wy * 32;
    assert(cross == 32 * off || cross == -32 * off) by (nonlinear_arith)
        requires
            cross == wx * dy - wy * 32,
            dy == 32 && off == wx - wy || dy == -32 && off == wx + wy,
    ;
    assert(cross * cross == 1024 * (off * off)) by (nonlinear_arith)
        requires
            cross == 32 * off || cross == -32 * off,
    ;
    assert(dy * dy == 1024) by (nonlinear_arith)
        requires
            dy == 32 || dy == -32,
    ;
}

/// Half way between two corners of the fret the left edge is blank.
proof fn lemma_sayagata_blank(a: int, y: int)
    requires
        is_spot(a),
        199 <= y <= 203 || 265 <= y <= 269,
    ensures
        !inked(usual(Pattern::Sayagata), a, y),
{
    let fig = usual(Pattern::Sayagata);
    assert forall|k: int| -fig.rows() <= k <= fig.rows() implies #[trigger] is_clear(
        fig,
        k,
        a,
        y,
    ) by {
        assert forall|i: int, e: int|
            fig.first() <= i < fig.first() + fig.columns() && 0 <= e
                < fig.edges() implies !#[trigger] is_under(fig, k, i, e, a, y) by {
            lemma_sayagata_stroke(k, i, e, a, y);
        }
    }
    lemma_blank(fig, fig.rows(), a, y);
}

proof fn lemma_sayagata_stroke(k: int, i: int, e: int, a: int, y: int)
    requires
        -7 <= k <= 7,
        -2 <= i <= 74,
        0 <= e < 2,
        is_spot(a),
        199 <= y <= 203 || 265 <= y <= 269,
    ensures
        !is_under(usual(Pattern::Sayagata), k, i, e, a, y),
{
    let shape = stroke_of(usual(Pattern::Sayagata), k, i, e);
    if fret_has(i, k, e) {
        let dy: int = if e == 0 {
            32
        } else {
            -32
        };
        assert(shape == Shape::Line {
            m: 1,
            ax: (32 * i) as i64,
            ay: (168 + 32 * k) as i64,
            dx: 32,
            dy: dy as i64,
        }) by (nonlinear_arith)
            requires
                fret_has(i, k, e),
                shape == stroke_of(usual(Pattern::Sayagata), k, i, e),
                e == 0 && dy == 32 || e == 1 && dy == -32,
        ;
        assert((i + k) % 2 == 0);
        assert(a * 1 == a && y * 1 == y);
        let wx = a - 32 * i;
        let wy = y - (168 + 32 * k);
        if covers(shape, a, y) {
            assert(i == 0 || i == -1);
            lemma_off_the_line(wx, wy, dy);
        }
    }
}

/// Between two arcs of a fan its middle line is blank: the fan hides what is
/// behind it.
proof fn lemma_seigaiha_blank(a: int, y: int)
    requires
        is_spot(a),
        187 <= y <= 191,
    ensures
        !inked(usual(Pattern::Seigaiha), a, y),
{
    let fig = usual(Pattern::Seigaiha);
    assert forall|k: int| 2 <= k <= 6 implies #[trigger] is_clear(fig, k, a, y) by {
        assert forall|i: int, e: int|
            fig.first() <= i < fig.first() + fig.columns() && 0 <= e
                < fig.edges() implies !#[trigger] is_under(fig, k, i, e, a, y) by {
            lemma_seigaiha_stroke(k, i, e, a, y);
        }
    }
    assert(fig.rows() == 6);
    assert(row_hides(fig, 2, fig.columns(), a, y)) by {
        reveal(fan_covers);
        let fan = fan_of(fig, 2, 0);
        assert(fan == Shape::Fan { cx: 0, cy: 312, r2: 20_736, reach: 144 }) by (nonlinear_arith)
            requires
                fan == fan_of(usual(Pattern::Seigaiha), 2, 0),
        ;
        let wy = y - 312;
        assert(a * a + wy * wy <= 20_736) by (nonlinear_arith)
            requires
                1 <= a <= 5,
                -125 <= wy <= -121,
        ;
        assert(a * 1 == a && y * 1 == y);
        assert(fan_covers(fig, 2, 1, a, y));
    }
    assert(is_clear(fig, 2, a, y) && is_clear(fig, 3, a, y) && is_clear(fig, 4, a, y));
    assert(is_clear(fig, 5, a, y) && is_clear(fig, 6, a, y));
    lemma_clear_row(fig, 2, a, y);
    lemma_clear_row(fig, 3, a, y);
    lemma_clear_row(fig, 4, a, y);
    lemma_clear_row(fig, 5, a, y);
    lemma_clear_row(fig, 6, a, y);
    assert(!lattice_ink(fig, 2, a, y));
    assert(!lattice_ink(fig, 3, a, y));
    assert(!lattice_ink(fig, 4, a, y));
    assert(!lattice_ink(fig, 5, a, y));
    assert(!lattice_ink(fig, 6, a, y));
}

proof fn lemma_seigaiha_stroke(k: int, i: int, e: int, a: int, y: int)
    requires
        2 <= k <= 6,
        -1 <= i <= 9,
        0 <= e < 3,
        is_spot(a),
        187 <= y <= 191,
    ensures
        !is_under(usual(Pattern::Seigaiha), k, i, e, a, y),
{
    let shape = stroke_of(usual(Pattern::Seigaiha), k, i, e);
    let r = 48 * (e + 1);
    let cx = 288 * i + if is_odd(k) {
        144int
    } else {
        0
    };
    assert(shape == Shape::Ring {
        cx: cx as i64,
        cy: (168 + 72 * k) as i64,
        r2: (r * r) as i64,
        reach: (r + 6) as i64,
        upper: true,
    }) by (nonlinear_arith)
        requires
            shape == stroke_of(usual(Pattern::Seigaiha), k, i, e),
            e == 0 && r == 48 || e == 1 && r == 96 || e == 2 && r == 144,
            cx == 288 * i + if is_odd(k) {
                144int
            } else {
                0
            },
    ;
    assert(a * 1 == a && y * 1 == y);
    if k == 2 && i == 0 {
        let wy = y - 312;
        let d2 = a * a + wy * wy;
        assert(14_642 <= d2 <= 15_650) by (nonlinear_arith)
            requires
                d2 == a * a + wy * wy,
                1 <= a <= 5,
                -125 <= wy <= -121,
        ;
        assert(!near_circle(d2, r * r)) by (nonlinear_arith)
            requires
                14_642 <= d2 <= 15_650,
                r == 48 || r == 96 || r == 144,
        ;
        assert(r * r == 2304 || r * r == 9216 || r * r == 20_736) by (nonlinear_arith)
            requires
                r == 48 || r == 96 || r == 144,
        ;
        assert((a - 0) * (a - 0) + (y - 312) * (y - 312) == d2);
    }
}

pub(crate) proof fn lemma_cosine_range(num: int, den: int)
    ensures
        -COS_ONE <= cosine(num, den) <= COS_ONE,
{
}

/// A wavy line stays between 0.15 and 0.39 of a pitch from its middle.
proof fn lemma_joint_range(s: int)
    ensures
        22_649_241 <= joint_x(usual(Pattern::Tatewaku), s) <= 58_888_028,
{
    let fig = usual(Pattern::Tatewaku);
    let c = swells(fig);
    let n = steps(fig);
    let turn = cosine(2 * (c + 2) * s - c * n, 2 * n);
    lemma_cosine_range(2 * (c + 2) * s - c * n, 2 * n);
    let base = fig.pitch * FINE * 27 / 50;
    let share = fig.pitch * FINE * 6 / 25;
    assert(base == 40_768_634 && share == 18_119_393) by (nonlinear_arith)
        requires
            fig == usual(Pattern::Tatewaku),
            base == fig.pitch * FINE * 27 / 50,
            share == fig.pitch * FINE * 6 / 25,
    ;
    let swing = share * turn / (COS_ONE as int);
    assert(-18_119_393 <= swing <= 18_119_393) by (nonlinear_arith)
        requires
            share == 18_119_393,
            -COS_ONE <= turn <= COS_ONE,
            swing == share * turn / (COS_ONE as int),
    ;
    assert(joint_x(fig, s) == base + swing);
}

/// The wavy lines keep clear of the left edge.
proof fn lemma_tatewaku_blank(a: int, y: int)
    requires
        is_spot(a),
    ensures
        !inked(usual(Pattern::Tatewaku), a, y),
{
    let fig = usual(Pattern::Tatewaku);
    assert forall|k: int| -fig.rows() <= k <= fig.rows() implies #[trigger] is_clear(
        fig,
        k,
        a,
        y,
    ) by {
        assert forall|i: int, e: int|
            fig.first() <= i < fig.first() + fig.columns() && 0 <= e
                < fig.edges() implies !#[trigger] is_under(fig, k, i, e, a, y) by {
            lemma_tatewaku_stroke(k, i, e, a, y);
        }
    }
    crate::raster::wagara::bands::lemma_pinch();
    lemma_blank(fig, fig.rows(), a, y);
}

proof fn lemma_tatewaku_stroke(k: int, i: int, e: int, a: int, y: int)
    requires
        -1 <= i <= 17,
        0 <= e,
        is_spot(a),
    ensures
        !is_under(usual(Pattern::Tatewaku), k, i, e, a, y),
{
    let fig = usual(Pattern::Tatewaku);
    let shape = stroke_of(fig, k, i, e);
    lemma_joint_range(e / 2);
    lemma_joint_range(e / 2 + 1);
    let near = joint_x(fig, e / 2);
    let far = joint_x(fig, e / 2 + 1);
    let cx = 150_994_944 * i;
    let ax = if e % 2 == 0 {
        cx - near
    } else {
        cx + near
    };
    let bx = if e % 2 == 0 {
        cx - far
    } else {
        cx + far
    };
    assert(2 * FINE * (i * 72) == cx) by (nonlinear_arith)
        requires
            cx == 150_994_944 * i,
    ;
    if let Shape::Line { m, ax: sx, ay, dx, dy } = shape {
        assert(m == FINE && sx == ax && dx == bx - ax);
    }
}

/// What the pictures show of the pixels that tell them apart.
proof fn lemma_asanoha_tones(y: int)
    requires
        0 <= y < 56,
    ensures
        is_dark(usual(Pattern::Asanoha), 0, y),
{
    let fig = usual(Pattern::Asanoha);
    assert forall|a: int, b: int| is_spot(a) && is_spot(b) implies #[trigger] sample(
        fig,
        0,
        y,
        a,
        b,
    ) by {
        lemma_asanoha(0, a, 6 * y + b);
    }
    lemma_dark(fig, 0, y);
}

proof fn lemma_ichimatsu_dark(y: int)
    requires
        y == 0 || y == 16,
    ensures
        is_dark(usual(Pattern::Ichimatsu), 0, y),
{
    let fig = usual(Pattern::Ichimatsu);
    assert forall|a: int, b: int| is_spot(a) && is_spot(b) implies #[trigger] sample(
        fig,
        0,
        y,
        a,
        b,
    ) by {
        lemma_checks(a, 6 * y + b);
        assert(a / 144 == 0 && (6 * y + b) * 2 / 336 == 0);
    }
    lemma_dark(fig, 0, y);
}

proof fn lemma_ichimatsu_light(y: int)
    requires
        y == 28 || y == 41 || y == 50,
    ensures
        !is_dark(usual(Pattern::Ichimatsu), 0, y),
{
    let fig = usual(Pattern::Ichimatsu);
    assert forall|a: int, b: int| is_spot(a) && is_spot(b) implies !#[trigger] sample(
        fig,
        0,
        y,
        a,
        b,
    ) by {
        lemma_checks(a, 6 * y + b);
        assert(a / 144 == 0 && (6 * y + b) * 2 / 336 == 1);
    }
    lemma_light(fig, 0, y);
}

proof fn lemma_ichimatsu_tones()
    ensures
        is_dark(usual(Pattern::Ichimatsu), 0, 0),
        is_dark(usual(Pattern::Ichimatsu), 0, 16),
        !is_dark(usual(Pattern::Ichimatsu), 0, 28),
        !is_dark(usual(Pattern::Ichimatsu), 0, 41),
        !is_dark(usual(Pattern::Ichimatsu), 0, 50),
{
    lemma_ichimatsu_dark(0);
    lemma_ichimatsu_dark(16);
    lemma_ichimatsu_light(28);
    lemma_ichimatsu_light(41);
    lemma_ichimatsu_light(50);
}

proof fn lemma_kanoko_tones()
    ensures
        is_dark(usual(Pattern::Kanoko), 0, 28),
        is_dark(usual(Pattern::Kanoko), 0, 33),
        is_dark(usual(Pattern::Kanoko), 0, 21),
        !is_dark(usual(Pattern::Kanoko), 0, 0),
        !is_dark(usual(Pattern::Kanoko), 0, 52),
{
    let fig = usual(Pattern::Kanoko);
    lemma_kanoko_dark(false);
    lemma_kanoko_side(2, 1, 201);
    lemma_kanoko_side(2, 3, 201);
    lemma_kanoko_side(2, 5, 201);
    lemma_kanoko_side(2, 1, 203);
    lemma_kanoko_side(2, 3, 203);
    lemma_five(fig, 0, 33, (3, 5, 3));
    assert forall|a: int, b: int| is_spot(a) && is_spot(b) implies #[trigger] sample(
        fig,
        0,
        21,
        a,
        b,
    ) by {
        lemma_kanoko_side(0, a, 126 + b);
    }
    lemma_dark(fig, 0, 21);
    assert forall|y: int, a: int, b: int|
        (y == 0 || y == 52) && is_spot(a) && is_spot(b) implies !#[trigger] sample(
        fig,
        0,
        y,
        a,
        b,
    ) by {
        lemma_kanoko_blank(a, 6 * y + b);
    }
    lemma_light(fig, 0, 0);
    lemma_light(fig, 0, 52);
}

proof fn lemma_kikkou_tones()
    ensures
        is_dark(usual(Pattern::Kikkou), 0, 41),
        is_dark(usual(Pattern::Kikkou), 7, 41),
        !is_dark(usual(Pattern::Kikkou), 0, 28),
        !is_dark(usual(Pattern::Kikkou), 0, 5),
{
    let fig = usual(Pattern::Kikkou);
    assert forall|x: int, a: int, b: int|
        (x == 0 || x == 7) && is_spot(a) && is_spot(b) implies #[trigger] sample(
        fig,
        x,
        41,
        a,
        b,
    ) by {
        lemma_kikkou(0, 6 * x + a, 246 + b);
    }
    lemma_dark(fig, 0, 41);
    lemma_dark(fig, 7, 41);
    assert forall|y: int, a: int, b: int|
        (y == 28 || y == 5) && is_spot(a) && is_spot(b) implies !#[trigger] sample(
        fig,
        0,
        y,
        a,
        b,
    ) by {
        lemma_kikkou_blank(a, 6 * y + b);
    }
    lemma_light(fig, 0, 28);
    lemma_light(fig, 0, 5);
}

proof fn lemma_sayagata_tones()
    ensures
        is_dark(usual(Pattern::Sayagata), 2, 25),
        is_dark(usual(Pattern::Sayagata), 0, 28),
        !is_dark(usual(Pattern::Sayagata), 0, 33),
        !is_dark(usual(Pattern::Sayagata), 0, 44),
{
    let fig = usual(Pattern::Sayagata);
    assert forall|a: int, b: int| is_spot(a) && is_spot(b) implies #[trigger] sample(
        fig,
        2,
        25,
        a,
        b,
    ) by {
        lemma_sayagata(0, 0, a - 4, b - 2);
    }
    lemma_dark(fig, 2, 25);
    lemma_sayagata_start(1, 1);
    lemma_sayagata_start(3, 1);
    lemma_sayagata_start(5, 1);
    lemma_sayagata_start(1, 3);
    lemma_sayagata_start(3, 3);
    lemma_five(fig, 0, 28, (1, 3, 1));
    assert forall|y: int, a: int, b: int|
        (y == 33 || y == 44) && is_spot(a) && is_spot(b) implies !#[trigger] sample(
        fig,
        0,
        y,
        a,
        b,
    ) by {
        lemma_sayagata_blank(a, 6 * y + b);
    }
    lemma_light(fig, 0, 33);
    lemma_light(fig, 0, 44);
}

proof fn lemma_seigaiha_tones()
    ensures
        is_dark(usual(Pattern::Seigaiha), 0, 28),
        is_dark(usual(Pattern::Seigaiha), 0, 44),
        is_dark(usual(Pattern::Seigaiha), 0, 52),
        !is_dark(usual(Pattern::Seigaiha), 0, 31),
{
    let fig = usual(Pattern::Seigaiha);
    assert forall|y: int, a: int, b: int|
        (y == 28 || y == 44 || y == 52) && is_spot(a) && is_spot(b) implies #[trigger] sample(
        fig,
        0,
        y,
        a,
        b,
    ) by {
        if y == 28 {
            lemma_seigaiha(2, 0, 2, a, 168 + b);
        } else if y == 44 {
            lemma_seigaiha(2, 0, 0, a, 264 + b);
        } else {
            lemma_seigaiha(4, 0, 2, a, 312 + b);
        }
    }
    lemma_dark(fig, 0, 28);
    lemma_dark(fig, 0, 44);
    lemma_dark(fig, 0, 52);
    assert forall|a: int, b: int| is_spot(a) && is_spot(b) implies !#[trigger] sample(
        fig,
        0,
        31,
        a,
        b,
    ) by {
        lemma_seigaiha_blank(a, 186 + b);
    }
    lemma_light(fig, 0, 31);
}

proof fn lemma_shippou_tones()
    ensures
        is_dark(usual(Pattern::Shippou), 0, 5),
        is_dark(usual(Pattern::Shippou), 0, 50),
        is_dark(usual(Pattern::Shippou), 0, 19),
        !is_dark(usual(Pattern::Shippou), 0, 28),
{
    let fig = usual(Pattern::Shippou);
    assert forall|y: int, a: int, b: int|
        (y == 5 || y == 50) && is_spot(a) && is_spot(b) implies #[trigger] sample(
        fig,
        0,
        y,
        a,
        b,
    ) by {
        lemma_shippou(0, a, 6 * y + b);
    }
    lemma_dark(fig, 0, 5);
    lemma_dark(fig, 0, 50);
    lemma_shippou_above(1, 115);
    lemma_shippou_above(3, 115);
    lemma_shippou_above(5, 115);
    lemma_shippou_above(1, 117);
    lemma_shippou_above(3, 117);
    lemma_five(fig, 0, 19, (1, 3, 1));
    assert forall|a: int, b: int| is_spot(a) && is_spot(b) implies !#[trigger] sample(
        fig,
        0,
        28,
        a,
        b,
    ) by {
        lemma_shippou_blank(a, b);
    }
    lemma_light(fig, 0, 28);
}

proof fn lemma_tatewaku_tones(y: int)
    ensures
        !is_dark(usual(Pattern::Tatewaku), 0, y),
{
    let fig = usual(Pattern::Tatewaku);
    assert forall|a: int, b: int| is_spot(a) && is_spot(b) implies !#[trigger] sample(
        fig,
        0,
        y,
        a,
        b,
    ) by {
        lemma_tatewaku_blank(a, 6 * y + b);
    }
    lemma_light(fig, 0, y);
}

proof fn lemma_uroko_dark(y: int)
    requires
        y == 17 || y == 50,
    ensures
        is_dark(usual(Pattern::Uroko), 0, y),
{
    let fig = usual(Pattern::Uroko);
    assert forall|a: int, b: int| is_spot(a) && is_spot(b) implies #[trigger] sample(
        fig,
        0,
        y,
        a,
        b,
    ) by {
        lemma_scales(a, 6 * y + b);
    }
    lemma_dark(fig, 0, y);
}

proof fn lemma_uroko_light(x: int, y: int)
    requires
        x == 0 && y == 19 || x == 0 && y == 28 || x == 7 && y == 41,
    ensures
        !is_dark(usual(Pattern::Uroko), x, y),
{
    let fig = usual(Pattern::Uroko);
    assert forall|a: int, b: int| is_spot(a) && is_spot(b) implies !#[trigger] sample(
        fig,
        x,
        y,
        a,
        b,
    ) by {
        lemma_scales(6 * x + a, 6 * y + b);
    }
    lemma_light(fig, x, y);
}

proof fn lemma_uroko_tones()
    ensures
        is_dark(usual(Pattern::Uroko), 0, 17),
        is_dark(usual(Pattern::Uroko), 0, 50),
        !is_dark(usual(Pattern::Uroko), 0, 19),
        !is_dark(usual(Pattern::Uroko), 0, 28),
        !is_dark(usual(Pattern::Uroko), 7, 41),
{
    lemma_uroko_dark(17);
    lemma_uroko_dark(50);
    lemma_uroko_light(0, 19);
    lemma_uroko_light(0, 28);
    lemma_uroko_light(7, 41);
}

proof fn lemma_yagasuri_light(x: int, y: int)
    requires
        x == 0 && (y == 16 || y == 17 || y == 20 || y == 21 || y == 50 || y == 52) || x == 2 && y
            == 25 || x == 7 && y == 41,
    ensures
        !is_dark(usual(Pattern::Yagasuri), x, y),
{
    let fig = usual(Pattern::Yagasuri);
    assert forall|a: int, b: int| is_spot(a) && is_spot(b) implies !#[trigger] sample(
        fig,
        x,
        y,
        a,
        b,
    ) by {
        lemma_feathers(6 * x + a, 6 * y + b);
    }
    lemma_light(fig, x, y);
}

proof fn lemma_yagasuri_tones()
    ensures
        is_dark(usual(Pattern::Yagasuri), 0, 4),
        !is_dark(usual(Pattern::Yagasuri), 0, 16),
        !is_dark(usual(Pattern::Yagasuri), 0, 17),
        !is_dark(usual(Pattern::Yagasuri), 0, 20),
        !is_dark(usual(Pattern::Yagasuri), 0, 21),
        !is_dark(usual(Pattern::Yagasuri), 0, 50),
        !is_dark(usual(Pattern::Yagasuri), 0, 52),
        !is_dark(usual(Pattern::Yagasuri), 2, 25),
        !is_dark(usual(Pattern::Yagasuri), 7, 41),
{
    let fig = usual(Pattern::Yagasuri);
    assert forall|a: int, b: int| is_spot(a) && is_spot(b) implies #[trigger] sample(
        fig,
        0,
        4,
        a,
        b,
    ) by {
        lemma_feathers(a, 24 + b);
    }
    lemma_dark(fig, 0, 4);
    lemma_yagasuri_light(0, 16);
    lemma_yagasuri_light(0, 17);
    lemma_yagasuri_light(0, 20);
    lemma_yagasuri_light(0, 21);
    lemma_yagasuri_light(0, 50);
    lemma_yagasuri_light(0, 52);
    lemma_yagasuri_light(2, 25);
    lemma_yagasuri_light(7, 41);
}

/// A pixel that tells the first of two pictures, in the order of their names,
/// from the second.
spec fn telling_pixel(a: Pattern, b: Pattern) -> (int, int) {
    match (a, b) {
        (Pattern::Asanoha, Pattern::Kanoko) => (0, 0),
        (Pattern::Asanoha, Pattern::Sayagata) => (0, 33),
        (Pattern::Asanoha, Pattern::Seigaiha) => (0, 31),
        (Pattern::Asanoha, Pattern::Yagasuri) => (0, 20),
        (Pattern::Asanoha, _) => (0, 28),
        (Pattern::Ichimatsu, Pattern::Kikkou) => (0, 41),
        (Pattern::Ichimatsu, Pattern::Shippou) => (0, 50),
        (Pattern::Ichimatsu, Pattern::Tatewaku) => (0, 0),
        (Pattern::Ichimatsu, Pattern::Uroko) => (0, 50),
        (Pattern::Ichimatsu, Pattern::Yagasuri) => (0, 16),
        (Pattern::Ichimatsu, _) => (0, 28),
        (Pattern::Kanoko, Pattern::Sayagata) => (0, 33),
        (Pattern::Kanoko, Pattern::Seigaiha) => (0, 52),
        (Pattern::Kanoko, Pattern::Yagasuri) => (0, 21),
        (Pattern::Kanoko, _) => (0, 28),
        (Pattern::Kikkou, Pattern::Shippou) => (0, 5),
        (Pattern::Kikkou, Pattern::Tatewaku) => (0, 41),
        (Pattern::Kikkou, Pattern::Uroko) => (7, 41),
        (Pattern::Kikkou, Pattern::Yagasuri) => (7, 41),
        (Pattern::Kikkou, _) => (0, 28),
        (Pattern::Sayagata, Pattern::Seigaiha) => (0, 44),
        (Pattern::Sayagata, Pattern::Yagasuri) => (2, 25),
        (Pattern::Sayagata, _) => (0, 28),
        (Pattern::Seigaiha, Pattern::Yagasuri) => (0, 52),
        (Pattern::Seigaiha, _) => (0, 28),
        (Pattern::Shippou, Pattern::Tatewaku) => (0, 5),
        (Pattern::Shippou, Pattern::Uroko) => (0, 19),
        (Pattern::Shippou, _) => (0, 50),
        (Pattern::Tatewaku, Pattern::Uroko) => (0, 17),
        (Pattern::Tatewaku, _) => (0, 4),
        (Pattern::Uroko, _) => (0, 17),
        _ => (0, 0),
    }
}

/// The place of a motif in the order of the names.
spec fn place(p: Pattern) -> int {
    match p {
        Pattern::Asanoha => 0,
        Pattern::Ichimatsu => 1,
        Pattern::Kanoko => 2,
        Pattern::Kikkou => 3,
        Pattern::Sayagata => 4,
        Pattern::Seigaiha => 5,
        Pattern::Shippou => 6,
        Pattern::Tatewaku => 7,
        Pattern::Uroko => 8,
        Pattern::Yagasuri => 9,
    }
}

/// The tone of a pixel that tells pictures apart.
spec fn tone(p: Pattern, at: (int, int)) -> bool {
    is_dark(usual(p), at.0, at.1)
}

proof fn lemma_pictures_differ(a: Pattern, b: Pattern)
    requires
        place(a) < place(b),
    ensures
        tone(a, telling_pixel(a, b)) != tone(b, telling_pixel(a, b)),
{
    let at = telling_pixel(a, b);
    match a {
        Pattern::Asanoha => lemma_asanoha_tones(at.1),
        Pattern::Ichimatsu => lemma_ichimatsu_tones(),
        Pattern::Kanoko => lemma_kanoko_tones(),
        Pattern::Kikkou => lemma_kikkou_tones(),
        Pattern::Sayagata => lemma_sayagata_tones(),
        Pattern::Seigaiha => lemma_seigaiha_tones(),
        Pattern::Shippou => lemma_shippou_tones(),
        Pattern::Tatewaku => lemma_tatewaku_tones(at.1),
        Pattern::Uroko => lemma_uroko_tones(),
        Pattern::Yagasuri => {},
    }
    match b {
        Pattern::Asanoha => {},
        Pattern::Ichimatsu => lemma_ichimatsu_tones(),
        Pattern::Kanoko => lemma_kanoko_tones(),
        Pattern::Kikkou => lemma_kikkou_tones(),
        Pattern::Sayagata => lemma_sayagata_tones(),
        Pattern::Seigaiha => lemma_seigaiha_tones(),
        Pattern::Shippou => lemma_shippou_tones(),
        Pattern::Tatewaku => lemma_tatewaku_tones(at.1),
        Pattern::Uroko => lemma_uroko_tones(),
        Pattern::Yagasuri => lemma_yagasuri_tones(),
    }
}

/// The figure of a band of the usual height and scale.
pub(crate) proof fn lemma_shown(pattern: Pattern, b: &Bitmap, x: int, y: int)
    requires
        is_band(pattern, default_options(), b),
        0 <= x < 384,
        0 <= y < 56,
    ensures
        b.black(x, y) == is_dark(usual(pattern), x, y),
{
    let fig = choose|fig: Figure| #[trigger]
        is_figure(fig, pattern, default_options()) && forall|x: int, y: int|
            0 <= x < 384 && 0 <= y < default_options().height ==> #[trigger] b.black(x, y) == (2
                * figure_votes(fig, x, y) >= 9);
    lemma_usual(fig, pattern);
    assert(b.black(x, y) == (2 * figure_votes(fig, x, y) >= 9));
}

/// Two motifs never look alike: unless told otherwise, their bands differ.
pub proof fn bands_differ(a: Pattern, b: Pattern, first: &Bitmap, second: &Bitmap)
    requires
        a != b,
        is_band(a, default_options(), first),
        is_band(b, default_options(), second),
    ensures
        first@ != second@,
{
    if place(a) < place(b) {
        let at = telling_pixel(a, b);
        lemma_pictures_differ(a, b);
        lemma_shown(a, first, at.0, at.1);
        lemma_shown(b, second, at.0, at.1);
    } else {
        let at = telling_pixel(b, a);
        lemma_pictures_differ(b, a);
        lemma_shown(a, first, at.0, at.1);
        lemma_shown(b, second, at.0, at.1);
    }
}

} // verus!
