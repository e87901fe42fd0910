//! What the solid and the wavy motifs look like, and how wide strokes are.

use vstd::prelude::*;
#[allow(unused_imports)]
use crate::raster::wagara::bands::lemma_no_turn;
#[allow(unused_imports)]
use crate::raster::wagara::figures::{
    check_ink, check_rows, cosine, feather_ink, is_odd, joint_x, scale_ink, steps, stroke_of,
    swells, Figure, Pattern, COS_ONE, FINE,
};
#[allow(unused_imports)]
use crate::raster::wagara::shapes::{near_circle, near_line, near_slant, nonpositive, Shape};
#[allow(unused_imports)]
use crate::raster::wagara::tones::lemma_cosine_range;
#[allow(unused_imports)]
use vstd::arithmetic::div_mod::lemma_fundamental_div_mod_converse;

verus! {

/// The checks of a board alternate down a column: one row further the colour is
/// the other one.
pub proof fn checks_alternate_downwards(fig: Figure, x: int, y: int, d: int)
    requires
        fig.wf(),
        check_rows(fig) * d == 2 * fig.h,
    ensures
        check_ink(fig, x, y + d) == !check_ink(fig, x, y),
{
    let c = check_rows(fig);
    let h = fig.h as int;
    assert((y + d) * c == 2 * h + y * c) by (nonlinear_arith)
        requires
            c * d == 2 * h,
    ;
    vstd::arithmetic::div_mod::lemma_div_plus_one(y * c, 2 * h);
}

/// Checks and swells are as near to their proportions as whole rows allow: checks
/// are as tall as wide, and a swell is 1.3 pitches tall.
pub proof fn rows_come_near_to_their_proportions(fig: Figure)
    requires
        fig.wf(),
    ensures
        ({
            let p = fig.pitch as int;
            let h = fig.h as int;
            let rows = check_rows(fig);
            let waves = swells(fig);
            &&& rows >= 1
            &&& 2 * (p * rows) <= 4 * h + p || rows == 1
            &&& 4 * h < 2 * (p * rows) + p
            &&& waves >= 1
            &&& 26 * (p * waves) <= 20 * h + 13 * p || waves == 1
            &&& 20 * h < 26 * (p * waves) + 13 * p
        }),
{
    let p = fig.pitch as int;
    let h = fig.h as int;
    let a = (4 * h + p) / (2 * p);
    let b = (20 * h + 13 * p) / (26 * p);
    assert(a * (2 * p) <= 4 * h + p < a * (2 * p) + 2 * p) by (nonlinear_arith)
        requires
            a == (4 * h + p) / (2 * p),
            p > 0,
    ;
    assert(b * (26 * p) <= 20 * h + 13 * p < b * (26 * p) + 26 * p) by (nonlinear_arith)
        requires
            b == (20 * h + 13 * p) / (26 * p),
            p > 0,
    ;
    assert(a * (2 * p) == 2 * (p * a) && b * (26 * p) == 26 * (p * b)) by (nonlinear_arith);
    if a < 1 {
        assert(p * a <= 0) by (nonlinear_arith)
            requires
                a < 1,
                p > 0,
        ;
    }
    if b < 1 {
        assert(p * b <= 0) by (nonlinear_arith)
            requires
                b < 1,
                p > 0,
        ;
    }
}

/// The place of a column within a pair of scales.
proof fn lemma_across(x: int, p: int, q: int, r: int)
    requires
        p > 0,
        x == 2 * (p * q) + r,
        0 <= r < 2 * p,
    ensures
        x % (2 * p) == r,
{
    assert(x == q * (2 * p) + r) by (nonlinear_arith)
        requires
            x == 2 * (p * q) + r,
    ;
    lemma_fundamental_div_mod_converse(x, 2 * p, q, r);
}

/// Within a row of scales, what is inked stays inked further down.
pub proof fn scales_widen_downwards(fig: Figure, c: int, x: int, y: int, lower: int)
    requires
        fig.wf(),
        c >= 1,
        y <= lower,
        y * c / (2 * fig.h) == lower * c / (2 * fig.h),
        scale_ink(fig, c, x, y),
    ensures
        scale_ink(fig, c, x, lower),
{
    let p = fig.pitch as int;
    let h = fig.h as int;
    let j = y * c / (2 * h);
    assert((y * c - 2 * h * j) * p <= (lower * c - 2 * h * j) * p) by (nonlinear_arith)
        requires
            y <= lower,
            c >= 1,
            p > 0,
    ;
}

/// A scale is inked down its middle, and the middle of the gap between two scales
/// is blank; the scales of every other row stand above the gaps.
pub proof fn scales_stand_above_gaps(fig: Figure, c: int, q: int, y: int)
    requires
        fig.wf(),
        c >= 1,
    ensures
        ({
            let p = fig.pitch as int;
            let odd = (y * c / (2 * fig.h)) % 2 == 1;
            &&& scale_ink(fig, c, 2 * (p * q), y) == !odd
            &&& scale_ink(fig, c, 2 * (p * q) + p, y) == odd
        }),
{
    let p = fig.pitch as int;
    let h = fig.h as int;
    let j = y * c / (2 * h);
    let depth = y * c - 2 * h * j;
    assert(0 <= depth < 2 * h) by (nonlinear_arith)
        requires
            j == y * c / (2 * h),
            depth == y * c - 2 * h * j,
            h > 0,
    ;
    lemma_across(2 * (p * q), p, q, 0);
    lemma_across(2 * (p * q) + p, p, q, p);
    assert(2 * (p * q) + 2 * p == 2 * (p * (q + 1))) by (nonlinear_arith);
    lemma_across(2 * (p * q) + 2 * p, p, q + 1, 0);
    assert(p * (2 * h) > depth * p) by (nonlinear_arith)
        requires
            depth < 2 * h,
            p > 0,
    ;
    assert(0 * (2 * h) <= depth * p) by (nonlinear_arith)
        requires
            depth >= 0,
            p > 0,
    ;
}

proof fn lemma_half_turn(a: int, h: int)
    requires
        h > 0,
    ensures
        ((a - 8 * h) % (16 * h) < 8 * h) == !(a % (16 * h) < 8 * h),
        ((a + 8 * h) % (16 * h) < 8 * h) == !(a % (16 * h) < 8 * h),
{
    let m = 16 * h;
    let q = a / m;
    let r = a % m;
    assert(a == q * m + r && 0 <= r < m) by (nonlinear_arith)
        requires
            q == a / m,
            r == a % m,
            m > 0,
    ;
    assert((q - 1) * m == q * m - m && (q + 1) * m == q * m + m) by (nonlinear_arith);
    if r >= 8 * h {
        lemma_fundamental_div_mod_converse(a - 8 * h, m, q, r - 8 * h);
        lemma_fundamental_div_mod_converse(a + 8 * h, m, q + 1, r - 8 * h);
    } else {
        lemma_fundamental_div_mod_converse(a - 8 * h, m, q - 1, r + 8 * h);
        lemma_fundamental_div_mod_converse(a + 8 * h, m, q, r + 8 * h);
    }
}

/// A column of feathers is half a pitch wide, and its shaft stays blank: two
/// pixels down its middle.
pub proof fn shafts_stay_blank(fig: Figure, i: int, x: int, y: int)
    requires
        fig.wf(),
        fig.pitch % 2 == 0,
        // `x` is less than one pixel off the middle of column `i`.
        -6 < x - (i * (fig.pitch as int / 2) + fig.pitch as int / 4) < 6,
        fig.pitch % 4 == 0,
    ensures
        !feather_ink(fig, x, y),
{
    let p = fig.pitch as int;
    let half = p / 2;
    assert(p == 2 * half && half % 2 == 0);
    let off = 2 * x - i * p;
    assert(i * p == 2 * (i * half)) by (nonlinear_arith)
        requires
            p == 2 * half,
    ;
    assert(2 * x / p == i) by {
        lemma_fundamental_div_mod_converse(2 * x, p, i, off);
    }
    assert(4 * x - (2 * p * i + p) == 2 * off - p) by (nonlinear_arith)
        requires
            off == 2 * x - i * p,
    ;
}

/// Feathers alternate down a column: half a period further the colour is the other
/// one, but for the shaft.
pub proof fn feathers_alternate_downwards(fig: Figure, x: int, y: int, d: int)
    requires
        fig.wf(),
        check_rows(fig) * d == fig.h,
    ensures
        feather_ink(fig, x, y) ==> !feather_ink(fig, x, y + d),
        feather_ink(fig, x, y) || feather_ink(fig, x, y + d) || !feather_ink(fig, x, y + 2 * d),
{
    let p = fig.pitch as int;
    let h = fig.h as int;
    let c = check_rows(fig);
    let i = 2 * x / p;
    let from_shaft = 4 * x - (2 * p * i + p);
    let reach = if from_shaft < 0 {
        -from_shaft
    } else {
        from_shaft
    };
    let edge = if (i / 2) % 2 == 1 {
        reach - p
    } else {
        p - reach
    };
    let a = 2 * c * (4 * y - edge) - if is_odd(i) {
        8 * h
    } else {
        0
    };
    assert(2 * c * (4 * (y + d) - edge) == 2 * c * (4 * y - edge) + 8 * h) by (nonlinear_arith)
        requires
            c * d == h,
    ;
    assert(2 * c * (4 * (y + 2 * d) - edge) == 2 * c * (4 * y - edge) + 16 * h)
        by (nonlinear_arith)
        requires
            c * d == h,
    ;
    lemma_half_turn(a, h);
    lemma_half_turn(a + 8 * h, h);
}

/// The two lines about a column of rising steam mirror each other, and are between
/// 0.3 and 0.78 of a pitch apart.
pub proof fn steam_is_symmetric(fig: Figure, k: int, i: int, s: int)
    requires
        fig.wf(),
        fig.pattern == Pattern::Tatewaku,
        -300 <= i <= 300,
        0 <= s,
    ensures
        ({
            let p = fig.pitch as int;
            let left = stroke_of(fig, k, i, 2 * s);
            let right = stroke_of(fig, k, i, 2 * s + 1);
            let middle = 2 * FINE * (i * p);
            let apart = right->Line_ax - left->Line_ax;
            &&& left is Line && right is Line && left->Line_m == FINE && right->Line_m == FINE
            &&& left->Line_ay == right->Line_ay && left->Line_dy == right->Line_dy
            &&& left->Line_ax + right->Line_ax == 2 * middle
            &&& left->Line_dx == -right->Line_dx
            // A pitch is `2 * p` halves of a sample, each `FINE` units.
            &&& 30 * (2 * (FINE * p)) - 400 <= 100 * apart <= 78 * (2 * (FINE * p)) + 400
        }),
{
    let p = fig.pitch as int;
    assert((2 * s) / 2 == s && (2 * s) % 2 == 0 && (2 * s + 1) / 2 == s && (2 * s + 1) % 2 == 1);
    lemma_swing(fig, s);
    lemma_swing(fig, s + 1);
    assert(-172_800 <= i * p <= 172_800) by (nonlinear_arith)
        requires
            72 <= p <= 576,
            -300 <= i <= 300,
    ;
    assert(FINE * p == 0x10_0000 * p);
}

proof fn lemma_swing(fig: Figure, s: int)
    requires
        fig.wf(),
    ensures
        30 * (FINE * fig.pitch) - 200 <= 100 * joint_x(fig, s) <= 78 * (FINE * fig.pitch) + 200,
{
    let p = fig.pitch as int;
    let c = swells(fig);
    let n = steps(fig);
    let cos = cosine(2 * (c + 2) * s - c * n, 2 * n);
    lemma_cosine_range(2 * (c + 2) * s - c * n, 2 * n);
    let one = COS_ONE as int;
    let swell = p * FINE * 6 / 25;
    assert(-swell <= swell * cos / one <= swell) by (nonlinear_arith)
        requires
            -one <= cos <= one,
            one > 0,
            swell >= 0,
    ;
    assert(p * FINE == FINE * p) by (nonlinear_arith);
}

/// The lines about a column are furthest apart on the band's centre line, and again
/// a swell further; half a swell away they are nearest.
pub proof fn steam_swells_on_the_centre_line(fig: Figure, s: int, t: int)
    requires
        fig.wf(),
        // `s` is whole swells off the centre line, `t` swells and a half.
        (2 * (swells(fig) + 2) * s - swells(fig) * steps(fig)) % (2 * steps(fig)) == 0,
        (2 * (swells(fig) + 2) * t - swells(fig) * steps(fig)) % (2 * steps(fig)) == steps(fig),
    ensures
        ({
            let p = fig.pitch as int;
            &&& 78 * (FINE * p) - 200 <= 100 * joint_x(fig, s) <= 78 * (FINE * p)
            &&& 30 * (FINE * p) - 200 <= 100 * joint_x(fig, t) <= 30 * (FINE * p) + 200
        }),
{
    let p = fig.pitch as int;
    let n = steps(fig);
    let one = COS_ONE as int;
    let swell = p * FINE * 6 / 25;
    lemma_no_turn(2 * n);
    lemma_no_turn(4 * n);
    let c = swells(fig);
    assert(cosine(2 * (c + 2) * s - c * n, 2 * n) == one);
    assert(cosine(2 * (c + 2) * t - c * n, 2 * n) == -one);
    assert(swell * one / one == swell && swell * (-one) / one == -swell) by (nonlinear_arith)
        requires
            one > 0,
    ;
    assert(p * FINE == FINE * p) by (nonlinear_arith);
}

/// A circle is drawn two pixels wide: a point is under the stroke exactly if its
/// distance from the centre is no more than one pixel, six units, off the radius.
pub proof fn circles_are_two_pixels_wide(distance: int, radius: int)
    requires
        distance >= 0,
        radius >= 0,
    ensures
        near_circle(distance * distance, radius * radius) == (-6 <= distance - radius <= 6),
{
    let d = distance;
    let r = radius;
    let outside = d * d - r * r - 36;
    let inside = r * r - d * d - 36;
    assert((outside <= 0 || outside * outside <= 144 * (r * r)) == (d <= r + 6)) by {
        lemma_within(outside, r);
        assert((outside <= 12 * r) == (d * d <= (r + 6) * (r + 6))) by (nonlinear_arith)
            requires
                outside == d * d - r * r - 36,
        ;
        lemma_squares(d, r + 6);
    }
    assert((inside <= 0 || inside * inside <= 144 * (d * d)) == (r <= d + 6)) by {
        lemma_within(inside, d);
        assert((inside <= 12 * d) == (r * r <= (d + 6) * (d + 6))) by (nonlinear_arith)
            requires
                inside == r * r - d * d - 36,
        ;
        lemma_squares(r, d + 6);
    }
}

proof fn lemma_squares(a: int, b: int)
    requires
        a >= 0,
        b >= 0,
    ensures
        (a * a <= b * b) == (a <= b),
{
    assert(a <= b ==> a * a <= b * b) by (nonlinear_arith)
        requires
            a >= 0,
    ;
    assert(a > b ==> a * a > b * b) by (nonlinear_arith)
        requires
            b >= 0,
    ;
}

proof fn lemma_within(v: int, r: int)
    requires
        r >= 0,
    ensures
        (v <= 0 || v * v <= 144 * (r * r)) == (v <= 12 * r),
{
    assert((12 * r) * (12 * r) == 144 * (r * r)) by (nonlinear_arith);
    if v > 0 {
        lemma_squares(v, 12 * r);
    }
}

/// A straight stroke is two pixels wide, ends in half-discs, and does not depend on
/// the end that it is drawn from.
pub proof fn lines_are_two_pixels_wide(m: int, length: int, along: int, off: int)
    requires
        m >= 1,
        length > 0,
    ensures
        0 <= along <= length ==> near_line(m, along, off, length, 0) == (-6 * m <= off <= 6 * m),
        along < 0 ==> near_line(m, along, off, length, 0) == (along * along + off * off <= (6 * m)
            * (6 * m)),
        near_line(m, along, off, length, 0) == near_line(m, along - length, off, -length, 0),
        near_line(m, along, off, length, 0) == near_line(m, off, along, 0, length),
{
    let half = 6 * m;
    let half2 = 36 * (m * m);
    assert(half2 == half * half) by (nonlinear_arith)
        requires
            half == 6 * m,
            half2 == 36 * (m * m),
    ;
    let len2 = length * length;
    assert(len2 > 0) by (nonlinear_arith)
        requires
            len2 == length * length,
            length > 0,
    ;
    assert(along * length + off * 0 == along * length && length * length + 0 * 0 == len2);
    assert((along * length <= 0) == (along <= 0) && (along * length >= len2) == (along >= length))
        by (nonlinear_arith)
        requires
            length > 0,
            len2 == length * length,
    ;
    let cross = along * 0 - off * length;
    let up = off * length - along * 0;
    assert(cross * cross == (off * off) * len2 && up * up == (off * off) * len2)
        by (nonlinear_arith)
        requires
            cross == along * 0 - off * length,
            up == off * length - along * 0,
            len2 == length * length,
    ;
    assert(((off * off) * len2 <= half2 * len2) == (off * off <= half2)) by (nonlinear_arith)
        requires
            len2 > 0,
    ;
    assert((off * off <= half * half) == (-half <= off <= half)) by {
        if off >= 0 {
            lemma_squares(off, half);
        } else {
            lemma_squares(-off, half);
            assert((-off) * (-off) == off * off) by (nonlinear_arith);
        }
    }
    lemma_other_end(m, length, along, off);
    lemma_upright(m, length, along, off);
    if 0 <= along <= length {
        assert(along == 0 ==> along * along == 0);
        assert(along == length ==> (along - length) * (along - length) == 0);
        assert((off - 0) * (off - 0) == off * off);
    }
}

proof fn lemma_upright(m: int, length: int, along: int, off: int)
    ensures
        near_line(m, along, off, length, 0) == near_line(m, off, along, 0, length),
{
    assert(along * length + off * 0 == off * 0 + along * length);
    assert(length * length + 0 * 0 == 0 * 0 + length * length);
    assert(along * along + off * off == off * off + along * along);
    assert((along - length) * (along - length) + (off - 0) * (off - 0) == (off - 0) * (off - 0) + (
    along - length) * (along - length));
    let a = along * 0 - off * length;
    let b = off * length - along * 0;
    assert(a * a == b * b) by (nonlinear_arith)
        requires
            a == along * 0 - off * length,
            b == off * length - along * 0,
    ;
}

proof fn lemma_other_end(m: int, length: int, along: int, off: int)
    requires
        length > 0,
    ensures
        near_line(m, along, off, length, 0) == near_line(m, along - length, off, -length, 0),
{
    let w = along - length;
    let len2 = length * length + 0 * 0;
    assert(len2 == (-length) * (-length) + 0 * 0) by (nonlinear_arith)
        requires
            len2 == length * length + 0 * 0,
    ;
    let dot = along * length + off * 0;
    let turned = w * (-length) + off * 0;
    assert(turned == len2 - dot) by (nonlinear_arith)
        requires
            turned == w * (-length) + off * 0,
            dot == along * length + off * 0,
            len2 == length * length + 0 * 0,
            w == along - length,
    ;
    assert(len2 > 0) by (nonlinear_arith)
        requires
            len2 == length * length + 0 * 0,
            length > 0,
    ;
    assert(w - (-length) == along);
    assert((off - 0) * (off - 0) == off * off);
    let a = along * 0 - off * length;
    let b = w * 0 - off * (-length);
    assert(a * a == b * b) by (nonlinear_arith)
        requires
            a == along * 0 - off * length,
            b == w * 0 - off * (-length),
    ;
}

/// Three is no square of a fraction.
proof fn lemma_no_root_of_three(p: int, q: int)
    requires
        p * p == 3 * (q * q),
    ensures
        p == 0 && q == 0,
    decreases p * p,
{
    let a = p / 3;
    let r = p % 3;
    assert(p == 3 * a + r);
    assert(p * p == 3 * (3 * (a * a) + 2 * (a * r)) + r * r) by (nonlinear_arith)
        requires
            p == 3 * a + r,
    ;
    assert(r == 1 ==> r * r == 1);
    assert(r == 2 ==> r * r == 4);
    assert(r == 0);
    assert(q * q == 3 * (a * a)) by (nonlinear_arith)
        requires
            p * p == 3 * (q * q),
            p == 3 * a,
    ;
    assert(q * q >= 0) by (nonlinear_arith);
    assert(p * p == 0 ==> p == 0) by (nonlinear_arith);
    assert(q * q == 0 ==> q == 0) by (nonlinear_arith);
    if p * p > 0 {
        lemma_no_root_of_three(q, a);
    }
}

/// Of `p + q√3` and its negative one is at most zero, both only if `p` and `q` are
/// zero, and less in either part stays at most zero.
pub proof fn surds_have_a_sign(p: int, q: int, less_p: int, less_q: int)
    requires
        less_p <= p,
        less_q <= q,
    ensures
        nonpositive(p, q) || nonpositive(-p, -q),
        nonpositive(p, q) && nonpositive(-p, -q) ==> p == 0 && q == 0,
        nonpositive(p, q) ==> nonpositive(less_p, less_q),
        q == 0 ==> nonpositive(p, q) == (p <= 0),
        p == 0 ==> nonpositive(p, q) == (q <= 0),
{
    if p * p == 3 * (q * q) {
        lemma_no_root_of_three(p, q);
    }
    assert((-p) * (-p) == p * p && (-q) * (-q) == q * q) by (nonlinear_arith);
    assert(p == 0 ==> p * p == 0);
    assert(q == 0 ==> q * q == 0);
    assert(q != 0 ==> q * q > 0 && p != 0 ==> p * p > 0) by (nonlinear_arith);
    assert(q * q >= 0 && p * p >= 0) by (nonlinear_arith);
    assert(less_p <= p <= 0 ==> less_p * less_p >= p * p) by (nonlinear_arith)
        requires
            less_p <= p,
    ;
    assert(0 <= less_p ==> less_p * less_p <= p * p) by (nonlinear_arith)
        requires
            less_p <= p,
    ;
    assert(q <= 0 ==> less_q * less_q >= q * q) by (nonlinear_arith)
        requires
            less_q <= q,
    ;
    assert(0 <= less_q ==> less_q * less_q <= q * q) by (nonlinear_arith)
        requires
            less_q <= q,
    ;
}

/// A stroke whose heights have no multiple of √3 in them is a straight stroke like
/// any other.
pub proof fn slants_without_surds_are_lines(m: int, wx: int, wy: int, dx: int, dy: int)
    ensures
        near_slant(m, wx, wy, 0, dx, dy, 0) == near_line(m, wx, wy, dx, dy),
{
    assert(0int * 0 == 0 && wy * 0 == 0 && 0 * dy == 0 && dy * 0 == 0);
    let half2 = 36 * (m * m);
    assert(half2 * (2 * (dy * 0)) == 0) by (nonlinear_arith);
    assert(wx * 0 - 0 * dx == 0);
    let cross = wx * dy - wy * dx;
    assert(cross * 0 == 0);
    assert(2 * (cross * (wx * 0 - 0 * dx)) == 0) by (nonlinear_arith)
        requires
            wx * 0 - 0 * dx == 0,
    ;
    assert((wx * 0 - 0 * dx) * (wx * 0 - 0 * dx) == 0) by (nonlinear_arith)
        requires
            wx * 0 - 0 * dx == 0,
    ;
    assert((wy - dy) * (0int - 0) == 0) by (nonlinear_arith);
}

/// A slanted stroke is the same from either end.
pub proof fn slants_run_both_ways(
    m: int,
    wx: int,
    wu: int,
    wv: int,
    dx: int,
    du: int,
    dv: int,
)
    requires
        du == 0 || dv == 0,
        dx != 0 || du != 0 || dv != 0,
    ensures
        near_slant(m, wx, wu, wv, dx, du, dv) == near_slant(
            m,
            wx - dx,
            wu - du,
            wv - dv,
            -dx,
            -du,
            -dv,
        ),
{
    let dot_p = wx * dx + wu * du + 3 * (wv * dv);
    let dot_q = wu * dv + wv * du;
    let len_p = dx * dx + du * du + 3 * (dv * dv);
    let len_q = 2 * (du * dv);
    let ex = wx - dx;
    let eu = wu - du;
    let ev = wv - dv;
    assert(len_q == 0) by (nonlinear_arith)
        requires
            du == 0 || dv == 0,
            len_q == 2 * (du * dv),
    ;
    assert(len_p > 0) by (nonlinear_arith)
        requires
            dx != 0 || du != 0 || dv != 0,
            len_p == dx * dx + du * du + 3 * (dv * dv),
    ;
    let back_p = ex * (-dx) + eu * (-du) + 3 * (ev * (-dv));
    let back_q = eu * (-dv) + ev * (-du);
    assert(back_p == len_p - dot_p) by (nonlinear_arith)
        requires
            back_p == ex * (-dx) + eu * (-du) + 3 * (ev * (-dv)),
            dot_p == wx * dx + wu * du + 3 * (wv * dv),
            len_p == dx * dx + du * du + 3 * (dv * dv),
            ex == wx - dx,
            eu == wu - du,
            ev == wv - dv,
    ;
    assert(back_q == len_q - dot_q) by (nonlinear_arith)
        requires
            back_q == eu * (-dv) + ev * (-du),
            dot_q == wu * dv + wv * du,
            len_q == 2 * (du * dv),
            eu == wu - du,
            ev == wv - dv,
    ;
    assert((-dx) * (-dx) + (-du) * (-du) + 3 * ((-dv) * (-dv)) == len_p && 2 * ((-du) * (-dv))
        == len_q) by (nonlinear_arith)
        requires
            len_p == dx * dx + du * du + 3 * (dv * dv),
            len_q == 2 * (du * dv),
    ;
    // Not behind both ends at once.
    surds_have_a_sign(len_p - dot_p, -dot_q, -dot_p, -dot_q);
    surds_have_a_sign(dot_p, dot_q, dot_p, dot_q);
    assert(ex - (-dx) == wx && eu - (-du) == wu && ev - (-dv) == wv);
    let cross_p = wx * du - wu * dx;
    let cross_q = wx * dv - wv * dx;
    let turned_p = ex * (-du) - eu * (-dx);
    let turned_q = ex * (-dv) - ev * (-dx);
    assert(turned_p == -cross_p) by (nonlinear_arith)
        requires
            turned_p == ex * (-du) - eu * (-dx),
            cross_p == wx * du - wu * dx,
            ex == wx - dx,
            eu == wu - du,
    ;
    assert(turned_q == -cross_q) by (nonlinear_arith)
        requires
            turned_q == ex * (-dv) - ev * (-dx),
            cross_q == wx * dv - wv * dx,
            ex == wx - dx,
            ev == wv - dv,
    ;
    assert(turned_p * turned_p == cross_p * cross_p && turned_q * turned_q == cross_q * cross_q
        && turned_p * turned_q == cross_p * cross_q) by (nonlinear_arith)
        requires
            turned_p == -cross_p,
            turned_q == -cross_q,
    ;
}

/// An upright stroke of a multiple of √3 is two pixels wide, and ends in half-discs.
pub proof fn upright_slants_are_two_pixels_wide(m: int, off: int, along: int, length: int)
    requires
        m >= 1,
        length > 0,
    ensures
        0 <= along <= length ==> near_slant(m, off, 0, along, 0, 0, length) == (-6 * m <= off <= 6
            * m),
        along < 0 ==> near_slant(m, off, 0, along, 0, 0, length) == (off * off + 3 * (along
            * along) <= (6 * m) * (6 * m)),
{
    let half = 6 * m;
    let half2 = 36 * (m * m);
    assert(half2 == half * half) by (nonlinear_arith)
        requires
            half == 6 * m,
            half2 == 36 * (m * m),
    ;
    assert(off * 0 == 0 && 0 * length == 0 && along * 0 == 0 && 0int * 0 == 0);
    let len2 = length * length;
    assert(len2 > 0) by (nonlinear_arith)
        requires
            len2 == length * length,
            length > 0,
    ;
    assert((along * length <= 0) == (along <= 0) && (along * length >= len2) == (along >= length))
        by (nonlinear_arith)
        requires
            length > 0,
            len2 == length * length,
    ;
    let cross = off * length - along * 0;
    assert(cross * cross == (off * off) * len2) by (nonlinear_arith)
        requires
            cross == off * length - along * 0,
            len2 == length * length,
    ;
    assert((3 * ((off * off) * len2) - half2 * (3 * len2) <= 0) == (off * off <= half2))
        by (nonlinear_arith)
        requires
            len2 > 0,
    ;
    assert(half2 * (2 * (0int * length)) == 0) by (nonlinear_arith);
    assert(0 * cross == 0);
    assert((off * off <= half * half) == (-half <= off <= half)) by {
        if off >= 0 {
            lemma_squares(off, half);
        } else {
            lemma_squares(-off, half);
            assert((-off) * (-off) == off * off) by (nonlinear_arith);
        }
    }
    if 0 <= along <= length {
        assert(along == 0 ==> along * along == 0);
        assert(along == length ==> (along - length) * (along - length) == 0);
    }
}

} // verus!
