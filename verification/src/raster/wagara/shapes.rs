//! The strokes that a band is drawn with, and which samples they cover.
//!
//! All coordinates are exact. A sample stands at odd coordinates `(x, y)`, in
//! halves of a supersampled unit, with the origin at the band's top-left
//! corner. Shapes whose corners fall between those have a finer unit of their
//! own: `m` of it make up one half. Hexagonal figures have heights that are
//! multiples of the square root of three; such a number is written `p + q√3`.

use vstd::prelude::*;

verus! {

/// Half the width of a stroke, in halves of a supersampled unit: a stroke is
/// 2 px wide on paper.
pub const STROKE: i64 = 6;

/// Whether `p + q√3` is at most zero.
pub open spec fn nonpositive(p: int, q: int) -> bool {
    if p <= 0 && q <= 0 {
        true
    } else if p >= 0 && q >= 0 {
        false
    } else if p <= 0 {
        p * p >= 3 * (q * q)
    } else {
        p * p <= 3 * (q * q)
    }
}

/// One stroke or area.
#[derive(Debug, Clone, Copy)]
pub enum Shape {
    /// Nothing at all.
    Nothing,
    /// The stroke along the segment from `(ax, ay)` to `(ax + dx, ay + dy)`.
    Line { m: i64, ax: i64, ay: i64, dx: i64, dy: i64 },
    /// The same, with heights `au + av√3` and `du + dv√3`.
    Slant { m: i64, ax: i64, au: i64, av: i64, dx: i64, du: i64, dv: i64 },
    /// The stroke along the circle of squared radius `r2` about `(cx, cy)`, or
    /// along its upper half. `reach` is no less than the outer radius.
    Ring { cx: i64, cy: i64, r2: i64, reach: i64, upper: bool },
    /// The upper half of the disc of squared radius `r2` about `(cx, cy)`.
    Fan { cx: i64, cy: i64, r2: i64, reach: i64 },
}

/// Whether a point lies within the stroke along a segment, seen from the
/// segment's start: `w` is the point, `d` the end, `m` the unit.
pub open spec fn near_line(m: int, wx: int, wy: int, dx: int, dy: int) -> bool {
    let dot = wx * dx + wy * dy;
    let len2 = dx * dx + dy * dy;
    let half2 = 36 * (m * m);
    if dot <= 0 {
        wx * wx + wy * wy <= half2
    } else if dot >= len2 {
        (wx - dx) * (wx - dx) + (wy - dy) * (wy - dy) <= half2
    } else {
        let cross = wx * dy - wy * dx;
        cross * cross <= half2 * len2
    }
}

/// The same where heights have a multiple of √3 in them.
pub open spec fn near_slant(
    m: int,
    wx: int,
    wu: int,
    wv: int,
    dx: int,
    du: int,
    dv: int,
) -> bool {
    let dot_p = wx * dx + wu * du + 3 * (wv * dv);
    let dot_q = wu * dv + wv * du;
    let len_p = dx * dx + du * du + 3 * (dv * dv);
    let len_q = 2 * (du * dv);
    let half2 = 36 * (m * m);
    if nonpositive(dot_p, dot_q) {
        nonpositive(wx * wx + wu * wu + 3 * (wv * wv) - half2, 2 * (wu * wv))
    } else if nonpositive(len_p - dot_p, len_q - dot_q) {
        let ex = wx - dx;
        let eu = wu - du;
        let ev = wv - dv;
        nonpositive(ex * ex + eu * eu + 3 * (ev * ev) - half2, 2 * (eu * ev))
    } else {
        let cross_p = wx * du - wu * dx;
        let cross_q = wx * dv - wv * dx;
        nonpositive(
            cross_p * cross_p + 3 * (cross_q * cross_q) - half2 * len_p,
            2 * (cross_p * cross_q) - half2 * len_q,
        )
    }
}

/// Whether a point at the squared distance `d2` from the centre lies within the
/// stroke along a circle of squared radius `r2`: the distance and the radius
/// are no more than a stroke apart.
pub open spec fn near_circle(d2: int, r2: int) -> bool {
    let outside = d2 - r2 - 36;
    let inside = r2 - d2 - 36;
    &&& outside <= 0 || outside * outside <= 144 * r2
    &&& inside <= 0 || inside * inside <= 144 * d2
}

/// A number no greater than `v√3`.
pub open spec fn root_floor(v: int) -> int {
    if v >= 0 {
        v * 168 / 97
    } else {
        v * 97 / 56
    }
}

/// A number no less than `v√3`.
pub open spec fn root_ceil(v: int) -> int {
    -root_floor(-v)
}

/// The least and the greatest of two numbers, a stroke further out.
pub open spec fn spread(a: int, b: int, m: int) -> (int, int) {
    if a <= b {
        (a - 6 * m, b + 6 * m)
    } else {
        (b - 6 * m, a + 6 * m)
    }
}

/// The box that a shape is looked for in: the least and greatest column and
/// row, in the shape's own unit.
pub open spec fn box_of(shape: Shape) -> (int, int, int, int) {
    match shape {
        Shape::Nothing => (0, -1, 0, -1),
        Shape::Line { m, ax, ay, dx, dy } => {
            let xs = spread(ax as int, ax + dx, m as int);
            let ys = spread(ay as int, ay + dy, m as int);
            (xs.0, xs.1, ys.0, ys.1)
        },
        Shape::Slant { m, ax, au, av, dx, du, dv } => {
            let xs = spread(ax as int, ax + dx, m as int);
            let low = spread(au + root_floor(av as int), au + du + root_floor(av + dv), m as int);
            let high = spread(au + root_ceil(av as int), au + du + root_ceil(av + dv), m as int);
            (xs.0, xs.1, low.0, high.1)
        },
        Shape::Ring { cx, cy, r2, reach, upper } => (
            cx - reach,
            cx + reach,
            cy - reach,
            if upper {
                cy as int
            } else {
                cy + reach
            },
        ),
        Shape::Fan { cx, cy, r2, reach } => (cx - reach, cx + reach, cy - reach, cy as int),
    }
}

/// The unit of a shape.
pub open spec fn unit_of(shape: Shape) -> int {
    match shape {
        Shape::Line { m, .. } => m as int,
        Shape::Slant { m, .. } => m as int,
        _ => 1,
    }
}

/// Whether a shape covers the sample at `(x, y)`.
pub open spec fn covers(shape: Shape, x: int, y: int) -> bool {
    let m = unit_of(shape);
    let bounds = box_of(shape);
    &&& bounds.0 <= x * m <= bounds.1
    &&& bounds.2 <= y * m <= bounds.3
    &&& match shape {
        Shape::Nothing => false,
        Shape::Line { ax, ay, dx, dy, .. } => near_line(
            m,
            x * m - ax,
            y * m - ay,
            dx as int,
            dy as int,
        ),
        Shape::Slant { ax, au, av, dx, du, dv, .. } => near_slant(
            m,
            x * m - ax,
            y * m - au,
            -av,
            dx as int,
            du as int,
            dv as int,
        ),
        Shape::Ring { cx, cy, r2, .. } => near_circle(
            (x - cx) * (x - cx) + (y - cy) * (y - cy),
            r2 as int,
        ),
        Shape::Fan { cx, cy, r2, .. } => (x - cx) * (x - cx) + (y - cy) * (y - cy) <= r2,
    }
}

/// What keeps the arithmetic on a shape within range.
pub open spec fn is_moderate(shape: Shape) -> bool {
    match shape {
        Shape::Nothing => true,
        Shape::Line { m, ax, ay, dx, dy } => {
            &&& 1 <= m <= 0x100_0000
            &&& -0x10_0000_0000 <= ax <= 0x10_0000_0000
            &&& -0x10_0000_0000 <= ay <= 0x10_0000_0000
            &&& -0x1000_0000 <= dx <= 0x1000_0000
            &&& -0x1000_0000 <= dy <= 0x1000_0000
        },
        Shape::Slant { m, ax, au, av, dx, du, dv } => {
            &&& 1 <= m <= 25
            &&& -100_000 <= ax <= 100_000
            &&& -40_000 <= au <= 40_000
            &&& -90_000 <= av <= 90_000
            &&& -7_500 <= dx <= 7_500
            &&& -7_500 <= du <= 7_500
            &&& -7_500 <= dv <= 7_500
        },
        Shape::Ring { cx, cy, r2, reach, upper } => {
            &&& -0x10_0000 <= cx <= 0x10_0000
            &&& -0x10_0000 <= cy <= 0x10_0000
            &&& 0 <= r2 <= 0x1000_0000
            &&& 0 <= reach <= 0x10_0000
        },
        Shape::Fan { cx, cy, r2, reach } => {
            &&& -0x10_0000 <= cx <= 0x10_0000
            &&& -0x10_0000 <= cy <= 0x10_0000
            &&& 0 <= r2 <= 0x1000_0000
            &&& 0 <= reach <= 0x10_0000
        },
    }
}

proof fn lemma_product(a: int, b: int, ka: int, kb: int)
    requires
        -ka <= a <= ka,
        -kb <= b <= kb,
    ensures
        -(ka * kb) <= a * b <= ka * kb,
{
    assert(-(ka * kb) <= a * b <= ka * kb) by (nonlinear_arith)
        requires
            -ka <= a <= ka,
            -kb <= b <= kb,
    ;
}

fn is_nonpositive(p: i128, q: i128) -> (r: bool)
    requires
        -0x4000_0000_0000_0000 <= p <= 0x4000_0000_0000_0000,
        -0x4000_0000_0000_0000 <= q <= 0x4000_0000_0000_0000,
    ensures
        r == nonpositive(p as int, q as int),
{
    if p <= 0 && q <= 0 {
        return true;
    }
    if p >= 0 && q >= 0 {
        return false;
    }
    proof {
        lemma_product(p as int, p as int, 0x4000_0000_0000_0000, 0x4000_0000_0000_0000);
        lemma_product(q as int, q as int, 0x4000_0000_0000_0000, 0x4000_0000_0000_0000);
    }
    assert(0x4000_0000_0000_0000int * 0x4000_0000_0000_0000int
        == 0x1000_0000_0000_0000_0000_0000_0000_0000int);
    if p <= 0 {
        p * p >= 3 * (q * q)
    } else {
        p * p <= 3 * (q * q)
    }
}

/// [`near_slant`] on a point in the shape's box.
fn is_near_slant(m: i64, wx: i64, wu: i64, wv: i64, dx: i64, du: i64, dv: i64) -> (r: bool)
    requires
        1 <= m <= 25,
        -7_650 <= wx <= 7_650,
        -100_000 <= wu <= 100_000,
        -90_000 <= wv <= 90_000,
        -7_500 <= dx <= 7_500,
        -7_500 <= du <= 7_500,
        -7_500 <= dv <= 7_500,
    ensures
        r == near_slant(
            m as int,
            wx as int,
            wu as int,
            wv as int,
            dx as int,
            du as int,
            dv as int,
        ),
{
    proof {
        lemma_product(m as int, m as int, 25, 25);
        lemma_product(wx as int, dx as int, 7_650, 7_500);
        lemma_product(wu as int, du as int, 100_000, 7_500);
        lemma_product(wv as int, dv as int, 90_000, 7_500);
        lemma_product(wu as int, dv as int, 100_000, 7_500);
        lemma_product(wv as int, du as int, 90_000, 7_500);
        lemma_product(dx as int, dx as int, 7_500, 7_500);
        lemma_product(du as int, du as int, 7_500, 7_500);
        lemma_product(dv as int, dv as int, 7_500, 7_500);
        lemma_product(du as int, dv as int, 7_500, 7_500);
        lemma_product(wx as int, wx as int, 7_650, 7_650);
        lemma_product(wu as int, wu as int, 100_000, 100_000);
        lemma_product(wv as int, wv as int, 90_000, 90_000);
        lemma_product(wu as int, wv as int, 100_000, 90_000);
        lemma_product(wx as int, du as int, 7_650, 7_500);
        lemma_product(wu as int, dx as int, 100_000, 7_500);
        lemma_product(wx as int, dv as int, 7_650, 7_500);
        lemma_product(wv as int, dx as int, 90_000, 7_500);
    }
    let half2: i64 = 36 * (m * m);
    let dot_p: i64 = wx * dx + wu * du + 3 * (wv * dv);
    let dot_q: i64 = wu * dv + wv * du;
    let len_p: i64 = dx * dx + du * du + 3 * (dv * dv);
    let len_q: i64 = 2 * (du * dv);
    if is_nonpositive(dot_p as i128, dot_q as i128) {
        is_nonpositive(
            (wx * wx + wu * wu + 3 * (wv * wv) - half2) as i128,
            (2 * (wu * wv)) as i128,
        )
    } else if is_nonpositive((len_p - dot_p) as i128, (len_q - dot_q) as i128) {
        let ex: i64 = wx - dx;
        let eu: i64 = wu - du;
        let ev: i64 = wv - dv;
        proof {
            lemma_product(ex as int, ex as int, 15_150, 15_150);
            lemma_product(eu as int, eu as int, 107_500, 107_500);
            lemma_product(ev as int, ev as int, 97_500, 97_500);
            lemma_product(eu as int, ev as int, 107_500, 97_500);
        }
        is_nonpositive(
            (ex * ex + eu * eu + 3 * (ev * ev) - half2) as i128,
            (2 * (eu * ev)) as i128,
        )
    } else {
        let cross_p: i64 = wx * du - wu * dx;
        let cross_q: i64 = wx * dv - wv * dx;
        proof {
            lemma_product(cross_p as int, cross_p as int, 807_375_000, 807_375_000);
            lemma_product(cross_q as int, cross_q as int, 732_375_000, 732_375_000);
            lemma_product(cross_p as int, cross_q as int, 807_375_000, 732_375_000);
            lemma_product(half2 as int, len_p as int, 22_500, 281_250_000);
            lemma_product(half2 as int, len_q as int, 22_500, 112_500_000);
        }
        let p: i64 = cross_p * cross_p + 3 * (cross_q * cross_q) - half2 * len_p;
        let q: i64 = 2 * (cross_p * cross_q) - half2 * len_q;
        is_nonpositive(p as i128, q as i128)
    }
}

/// [`near_line`] on a point in the shape's box.
fn is_near_line(m: i64, wx: i64, wy: i64, dx: i64, dy: i64) -> (r: bool)
    requires
        1 <= m <= 0x100_0000,
        -0x2000_0000 <= wx <= 0x2000_0000,
        -0x2000_0000 <= wy <= 0x2000_0000,
        -0x1000_0000 <= dx <= 0x1000_0000,
        -0x1000_0000 <= dy <= 0x1000_0000,
    ensures
        r == near_line(m as int, wx as int, wy as int, dx as int, dy as int),
{
    proof {
        lemma_product(m as int, m as int, 0x100_0000, 0x100_0000);
        lemma_product(wx as int, dx as int, 0x2000_0000, 0x1000_0000);
        lemma_product(wy as int, dy as int, 0x2000_0000, 0x1000_0000);
        lemma_product(wx as int, dy as int, 0x2000_0000, 0x1000_0000);
        lemma_product(wy as int, dx as int, 0x2000_0000, 0x1000_0000);
        lemma_product(dx as int, dx as int, 0x1000_0000, 0x1000_0000);
        lemma_product(dy as int, dy as int, 0x1000_0000, 0x1000_0000);
        lemma_product(wx as int, wx as int, 0x2000_0000, 0x2000_0000);
        lemma_product(wy as int, wy as int, 0x2000_0000, 0x2000_0000);
    }
    let half2: i64 = 36 * (m * m);
    let dot: i64 = wx * dx + wy * dy;
    let len2: i64 = dx * dx + dy * dy;
    if dot <= 0 {
        wx * wx + wy * wy <= half2
    } else if dot >= len2 {
        let ex: i64 = wx - dx;
        let ey: i64 = wy - dy;
        proof {
            lemma_product(ex as int, ex as int, 0x3000_0000, 0x3000_0000);
            lemma_product(ey as int, ey as int, 0x3000_0000, 0x3000_0000);
        }
        ex * ex + ey * ey <= half2
    } else {
        let cross: i64 = wx * dy - wy * dx;
        proof {
            lemma_product(
                cross as int,
                cross as int,
                0x400_0000_0000_0000,
                0x400_0000_0000_0000,
            );
            lemma_product(
                half2 as int,
                len2 as int,
                0x24_0000_0000_0000,
                0x200_0000_0000_0000,
            );
        }
        let c: i128 = cross as i128;
        c * c <= (half2 as i128) * (len2 as i128)
    }
}

/// [`near_circle`] on a point in the shape's box.
fn is_near_circle(d2: i64, r2: i64) -> (r: bool)
    requires
        0 <= d2 <= 0x400_0000_0000,
        0 <= r2 <= 0x1000_0000,
    ensures
        r == near_circle(d2 as int, r2 as int),
{
    let outside: i64 = d2 - r2 - 36;
    let inside: i64 = r2 - d2 - 36;
    proof {
        lemma_product(outside as int, outside as int, 0x800_0000_0000, 0x800_0000_0000);
        lemma_product(inside as int, inside as int, 0x800_0000_0000, 0x800_0000_0000);
    }
    let o: i128 = outside as i128;
    let i: i128 = inside as i128;
    (outside <= 0 || o * o <= 144 * (r2 as i128)) && (inside <= 0 || i * i <= 144 * (d2 as i128))
}

/// [`root_floor`].
fn floor_root(v: i64) -> (r: i64)
    requires
        -1_000_000 <= v <= 1_000_000,
    ensures
        r == root_floor(v as int),
        -2_000_000 <= r <= 2_000_000,
{
    if v >= 0 {
        v * 168 / 97
    } else {
        let up: i64 = (-v) * 97;
        proof {
            let a = up as int;
            assert(v * 97 == -a);
            assert(v * 97 / 56 == -((a + 55) / 56));
        }
        -((up + 55) / 56)
    }
}

fn spread_of(a: i64, b: i64, m: i64) -> (r: (i64, i64))
    requires
        1 <= m <= 0x100_0000,
        -0x100_0000_0000 <= a <= 0x100_0000_0000,
        -0x100_0000_0000 <= b <= 0x100_0000_0000,
    ensures
        (r.0 as int, r.1 as int) == spread(a as int, b as int, m as int),
{
    if a <= b {
        (a - 6 * m, b + 6 * m)
    } else {
        (b - 6 * m, a + 6 * m)
    }
}

/// [`box_of`] with the unit of the shape.
pub fn bounds(shape: Shape) -> (r: (i64, i64, i64, i64, i64))
    requires
        is_moderate(shape),
    ensures
        (r.0 as int, r.1 as int, r.2 as int, r.3 as int) == box_of(shape),
        r.4 == unit_of(shape),
        1 <= r.4 <= 0x100_0000,
        -0x200_0000_0000 <= r.0 <= 0x200_0000_0000,
        -0x200_0000_0000 <= r.1 <= 0x200_0000_0000,
        -0x200_0000_0000 <= r.2 <= 0x200_0000_0000,
        -0x200_0000_0000 <= r.3 <= 0x200_0000_0000,
{
    match shape {
        Shape::Nothing => (0, -1, 0, -1, 1),
        Shape::Line { m, ax, ay, dx, dy } => {
            let xs: (i64, i64) = spread_of(ax, ax + dx, m);
            let ys: (i64, i64) = spread_of(ay, ay + dy, m);
            (xs.0, xs.1, ys.0, ys.1, m)
        },
        Shape::Slant { m, ax, au, av, dx, du, dv } => {
            let xs: (i64, i64) = spread_of(ax, ax + dx, m);
            let low: (i64, i64) = spread_of(
                au + floor_root(av),
                au + du + floor_root(av + dv),
                m,
            );
            let high: (i64, i64) = spread_of(
                au - floor_root(-av),
                au + du - floor_root(-av - dv),
                m,
            );
            (xs.0, xs.1, low.0, high.1, m)
        },
        Shape::Ring { cx, cy, reach, upper, .. } => (
            cx - reach,
            cx + reach,
            cy - reach,
            if upper {
                cy
            } else {
                cy + reach
            },
            1,
        ),
        Shape::Fan { cx, cy, reach, .. } => (cx - reach, cx + reach, cy - reach, cy, 1),
    }
}

/// [`covers`], for a sample of a band.
pub fn is_covered(shape: Shape, x: i64, y: i64) -> (r: bool)
    requires
        is_moderate(shape),
        0 <= x <= 2_400,
        0 <= y <= 2_400,
    ensures
        r == covers(shape, x as int, y as int),
{
    let b: (i64, i64, i64, i64, i64) = bounds(shape);
    let m: i64 = b.4;
    proof {
        lemma_product(x as int, m as int, 2_400, 0x100_0000);
        lemma_product(y as int, m as int, 2_400, 0x100_0000);
    }
    let px: i64 = x * m;
    let py: i64 = y * m;
    proof {
        if m == 1 {
            assert(x * m == x && y * m == y) by (nonlinear_arith)
                requires
                    m == 1,
            ;
        }
    }
    if px < b.0 || px > b.1 || py < b.2 || py > b.3 {
        return false;
    }
    match shape {
        Shape::Nothing => false,
        Shape::Line { m: _, ax, ay, dx, dy } => is_near_line(m, px - ax, py - ay, dx, dy),
        Shape::Slant { m: _, ax, au, av, dx, du, dv } => {
            proof {
                lemma_product(y as int, m as int, 2_400, 25);
            }
            is_near_slant(m, px - ax, py - au, -av, dx, du, dv)
        },
        Shape::Ring { cx, cy, r2, .. } => {
            let wx: i64 = px - cx;
            let wy: i64 = py - cy;
            proof {
                lemma_product(wx as int, wx as int, 0x10_0000, 0x10_0000);
                lemma_product(wy as int, wy as int, 0x10_0000, 0x10_0000);
                assert(wx * wx >= 0 && wy * wy >= 0) by (nonlinear_arith);
            }
            is_near_circle(wx * wx + wy * wy, r2)
        },
        Shape::Fan { cx, cy, r2, .. } => {
            let wx: i64 = px - cx;
            let wy: i64 = py - cy;
            proof {
                lemma_product(wx as int, wx as int, 0x10_0000, 0x10_0000);
                lemma_product(wy as int, wy as int, 0x10_0000, 0x10_0000);
            }
            wx * wx + wy * wy <= r2
        },
    }
}

} // verus!
