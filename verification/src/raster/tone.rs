//! What error diffusion keeps of a picture: its tone.
//!
//! The values of error diffusion are whole multiples of 2^-149. One step of the
//! shades is [`one`] of these, and no sum or product on the way is off by more
//! than [`bit`], the 32768th part of it.

use vstd::prelude::*;
#[allow(unused_imports)]
use crate::raster::binary32::{
    difference, product, round, round_magnitude, scaled_down, sum, whole, SIGNIFICAND_LIMIT,
};
#[allow(unused_imports)]
use crate::raster::bitmap::row_pixel;
#[allow(unused_imports)]
use crate::raster::dither::{
    diffused, error_of, is_black, is_dark, is_dithered, kernel, lands, part_of, prepared_height,
    printed_width, shades, share_bits, spread, Dither, Share,
};
#[allow(unused_imports)]
use crate::raster::gray::{is_image, is_uniform};
#[allow(unused_imports)]
use crate::rounding::{
    div_nearest_even, lemma_div_nearest_below, lemma_div_nearest_off_by_half, lemma_rounded_below,
    lemma_rounded_near, rounded,
};
#[allow(unused_imports)]
use vstd::arithmetic::power2::{lemma2_to64, lemma_pow2_adds, lemma_pow2_pos, lemma_pow2_unfold, pow2};

verus! {

/// One step of the shades.
pub closed spec fn one() -> int {
    pow2(149) as int
}

/// What a rounding on the way may be off by.
pub closed spec fn bit() -> int {
    pow2(134) as int
}

pub proof fn lemma_units()
    ensures
        one() == 32_768 * bit(),
        bit() >= 1024,
        forall|n: int| #[trigger] whole(n) == n * one(),
        pow2(4) == 16,
        pow2(3) == 8,
{
    lemma2_to64();
    lemma_pow2_adds(134, 15);
    lemma_pow2_adds(10, 124);
    lemma_pow2_pos(124);
    assert(pow2(15) == 32_768 && pow2(10) == 1024);
    assert(pow2(134) >= 1024) by (nonlinear_arith)
        requires
            pow2(134) == 1024 * pow2(124),
            pow2(124) >= 1,
    ;
    assert(pow2(149) == 32_768 * pow2(134)) by (nonlinear_arith)
        requires
            pow2(149) == pow2(134) * 32_768,
    ;
}

proof fn lemma_magnitude(a: nat, m: nat)
    requires
        m < 0x100_0000,
        a <= m * one(),
    ensures
        0 <= round_magnitude(a) <= m * one(),
{
    lemma_rounded_below(a, m, 149, SIGNIFICAND_LIMIT as nat);
}

proof fn lemma_round_within(n: int, lo: int, hi: int)
    requires
        0 <= lo < 0x100_0000,
        0 <= hi < 0x100_0000,
        -(lo * one()) <= n <= hi * one(),
    ensures
        -(lo * one()) <= round(n) <= hi * one(),
{
    lemma_units();
    assert(0 <= lo * one() && 0 <= hi * one()) by (nonlinear_arith)
        requires
            lo >= 0,
            hi >= 0,
            one() >= 0,
    ;
    if n < 0 {
        lemma_magnitude((-n) as nat, lo as nat);
    } else {
        lemma_magnitude(n as nat, hi as nat);
    }
}

proof fn lemma_round_near(n: int)
    requires
        -1000 * one() <= n <= 1000 * one(),
    ensures
        -bit() <= round(n) - n <= bit(),
{
    lemma_units();
    lemma_pow2_adds(24, 135);
    lemma_pow2_unfold(135);
    lemma2_to64();
    lemma_pow2_adds(10, 149);
    let limit = SIGNIFICAND_LIMIT as nat;
    assert(limit * pow2(135) == 1024 * one()) by {
        assert(pow2(159) == 0x100_0000 * pow2(135));
        assert(pow2(159) == 1024 * pow2(149));
    }
    if n < 0 {
        lemma_rounded_near((-n) as nat, 135, limit);
    } else {
        lemma_rounded_near(n as nat, 135, limit);
    }
}

proof fn lemma_scaled(a: int, d: int, c: int)
    requires
        d == 8 || d == 16,
        -(c * d) <= a <= c * d,
        c >= 0,
    ensures
        -c <= scaled_down(a, d) <= c,
        -8 <= d * scaled_down(a, d) - a <= 8,
{
    let m = if a < 0 {
        -a
    } else {
        a
    };
    lemma_div_nearest_below(m, d, c);
    lemma_div_nearest_off_by_half(m, d);
    let q = div_nearest_even(m, d);
    assert(q * d == d * q && d * (-q) == -(d * q)) by (nonlinear_arith);
}

/// What a receiver gets: its share of the error, as good as exactly.
proof fn lemma_part(err: int, weight: int, dither: Dither)
    requires
        -128 * one() <= err <= 128 * one(),
        1 <= weight <= 7,
        dither != Dither::Threshold,
        dither == Dither::Atkinson ==> weight == 1,
    ensures
        dither == Dither::FloydSteinberg ==> {
            let part = part_of(err, weight, share_bits(dither));
            &&& -(8 * weight) * one() <= part <= (8 * weight) * one()
            &&& -2 * bit() <= 16 * part - weight * err <= 2 * bit()
        },
        dither == Dither::Atkinson ==> {
            let part = part_of(err, weight, share_bits(dither));
            &&& -16 * one() <= part <= 16 * one()
            &&& -2 * bit() <= 8 * part - err <= 2 * bit()
        },
{
    lemma_units();
    let u = one();
    let n = err * weight;
    let k = 128 * weight;
    assert(-(k * u) <= n <= k * u && -1000 * u <= n <= 1000 * u && n == weight * err)
        by (nonlinear_arith)
        requires
            n == err * weight,
            k == 128 * weight,
            -128 * u <= err <= 128 * u,
            1 <= weight <= 7,
            u >= 0,
    ;
    lemma_round_within(n, k, k);
    lemma_round_near(n);
    let p = product(err, weight);
    if dither == Dither::FloydSteinberg {
        let c = (8 * weight) * u;
        assert(c * 16 == k * u && c >= 0 && -c == -(8 * weight) * u) by (nonlinear_arith)
            requires
                c == (8 * weight) * u,
                k == 128 * weight,
                u >= 0,
                weight >= 1,
        ;
        lemma_scaled(p, 16, c);
    } else {
        lemma_scaled(p, 8, 16 * u);
    }
}

/// The sum of all values from place `a` on.
pub open spec fn total(values: Seq<int>, a: int) -> int
    decreases values.len() - a,
{
    if a < 0 || a >= values.len() {
        0
    } else {
        values[a] + total(values, a + 1)
    }
}

proof fn lemma_total_update(values: Seq<int>, a: int, at: int, v: int)
    requires
        0 <= a,
        0 <= at < values.len(),
    ensures
        total(values.update(at, v), a) == total(values, a) + if at >= a {
            v - values[at]
        } else {
            0
        },
    decreases values.len() - a,
{
    if a < values.len() {
        lemma_total_update(values, a + 1, at, v);
    }
}

/// Where the pixel behind, and those below, stand in reading order.
proof fn lemma_around(w: int, h: int, x: int, y: int)
    requires
        0 <= x < w,
        0 <= y < h,
    ensures
        ({
            let i = y * w + x;
            &&& 0 <= i < h * w
            &&& i / w == y
            &&& i % w == x
            &&& (i + 1) % w == if x + 1 < w {
                x + 1
            } else {
                0
            }
            &&& (i + 1) / w == if x + 1 < w {
                y
            } else {
                y + 1
            }
            &&& (i + w) % w == x
            &&& (i + w) / w == y + 1
            &&& (i + w - 1) % w == if x >= 1 {
                x - 1
            } else {
                w - 1
            }
            &&& (i + w - 1) / w == if x >= 1 {
                y + 1
            } else {
                y
            }
            &&& (i + w + 1) % w == if x + 1 < w {
                x + 1
            } else {
                0
            }
            &&& (i + w + 1) / w == if x + 1 < w {
                y + 1
            } else {
                y + 2
            }
            &&& (y + 1) * w == y * w + w
            &&& (y + 2) * w == y * w + 2 * w
            &&& y + 1 < h ==> i + 2 * w - x <= h * w
            &&& y + 2 < h ==> i + 3 * w - x <= h * w
            &&& y + 1 >= h ==> i + w - x == h * w
            &&& y + 2 >= h ==> i + 2 * w - x >= h * w
        }),
{
    let i = y * w + x;
    assert((y + 1) * w == y * w + w && (y + 2) * w == y * w + 2 * w) by (nonlinear_arith);
    assert(0 <= y * w && y * w + w <= h * w) by (nonlinear_arith)
        requires
            0 <= y,
            y + 1 <= h,
            0 < w,
    ;
    assert(y + 1 < h ==> y * w + 2 * w <= h * w) by (nonlinear_arith)
        requires
            0 < w,
            0 <= y,
    ;
    assert(y + 2 < h ==> y * w + 3 * w <= h * w) by (nonlinear_arith)
        requires
            0 < w,
            0 <= y,
    ;
    assert(y + 1 >= h ==> y * w + w >= h * w) by (nonlinear_arith)
        requires
            0 < w,
            0 <= y < h,
    ;
    assert(y + 2 >= h ==> y * w + 2 * w >= h * w) by (nonlinear_arith)
        requires
            0 < w,
            0 <= y < h,
    ;
    vstd::arithmetic::div_mod::lemma_fundamental_div_mod_converse(i, w, y, x);
    vstd::arithmetic::div_mod::lemma_fundamental_div_mod_converse(i + w, w, y + 1, x);
    if x + 1 < w {
        vstd::arithmetic::div_mod::lemma_fundamental_div_mod_converse(i + 1, w, y, x + 1);
        vstd::arithmetic::div_mod::lemma_fundamental_div_mod_converse(i + w + 1, w, y + 1, x + 1);
    } else {
        vstd::arithmetic::div_mod::lemma_fundamental_div_mod_converse(i + 1, w, y + 1, 0);
        vstd::arithmetic::div_mod::lemma_fundamental_div_mod_converse(i + w + 1, w, y + 2, 0);
    }
    if x >= 1 {
        vstd::arithmetic::div_mod::lemma_fundamental_div_mod_converse(i + w - 1, w, y + 1, x - 1);
    } else {
        vstd::arithmetic::div_mod::lemma_fundamental_div_mod_converse(i + w - 1, w, y, w - 1);
    }
}

/// How many sixteenths of the error of one pixel another one in reading order
/// gets from Floyd–Steinberg: seven to the right, three below to the left, five
/// below, one below to the right.
pub open spec fn sixteenths(x: int, y: int, u: int, v: int) -> int {
    if v == y && u == x + 1 {
        7
    } else if v == y + 1 && u == x - 1 {
        3
    } else if v == y + 1 && u == x {
        5
    } else if v == y + 1 && u == x + 1 {
        1
    } else {
        0
    }
}

/// How many eighths of the error of one pixel another one gets from Atkinson:
/// one for each of the two to the right, the three below, and the one below that.
pub open spec fn eighths(x: int, y: int, u: int, v: int) -> int {
    if (v == y && (u == x + 1 || u == x + 2)) || (v == y + 1 && x - 1 <= u <= x + 1) || (v == y + 2
        && u == x) {
        1
    } else {
        0
    }
}

/// What place `k` holds once Floyd–Steinberg has spread the error of `(x, y)`.
spec fn after_floyd(values: Seq<int>, w: int, x: int, y: int, err: int, k: int) -> int {
    let s = sixteenths(x, y, k % w, k / w);
    if s == 0 {
        values[k]
    } else {
        sum(values[k], part_of(err, s, 4))
    }
}

proof fn lemma_floyd(values: Seq<int>, w: int, h: int, x: int, y: int, err: int, k: int)
    requires
        0 <= x < w,
        0 <= y < h,
        values.len() == h * w,
        0 <= k < values.len(),
    ensures
        spread(values, w, h, x, y, err, Dither::FloydSteinberg, 4)[k] == after_floyd(
            values,
            w,
            x,
            y,
            err,
            k,
        ),
        spread(values, w, h, x, y, err, Dither::FloydSteinberg, 4).len() == values.len(),
{
    let d = Dither::FloydSteinberg;
    let i = y * w + x;
    lemma_around(w, h, x, y);
    reveal_with_fuel(spread, 5);
    let a1 = i + 1;
    let a2 = i + w - 1;
    let a3 = i + w;
    let a4 = i + w + 1;
    let u = k % w;
    let v = k / w;
    assert(k == v * w + u && 0 <= u < w && v >= 0) by (nonlinear_arith)
        requires
            u == k % w,
            v == k / w,
            w > 0,
            k >= 0,
    ;
    assert(k < h * w);
    assert(v < h) by (nonlinear_arith)
        requires
            v * w + u < h * w,
            u >= 0,
            w > 0,
    ;
    assert(v == y ==> v * w == y * w);
    assert(v == y + 1 ==> v * w == y * w + w);
}

/// How many sixteenths of its error a pixel hands to the first `n` receivers.
spec fn handed(w: int, h: int, x: int, y: int, n: nat) -> int
    decreases n,
{
    if n == 0 {
        0
    } else {
        let share = kernel(Dither::FloydSteinberg)[n - 1];
        handed(w, h, x, y, (n - 1) as nat) + if lands(share, w, h, x, y) {
            share.weight as int
        } else {
            0
        }
    }
}

proof fn lemma_spread_total(
    values: Seq<int>,
    w: int,
    h: int,
    x: int,
    y: int,
    err: int,
    n: nat,
)
    requires
        0 <= x < w,
        0 <= y < h,
        values.len() == h * w,
        -128 * one() <= err <= 128 * one(),
        forall|k: int|
            y * w + x < k < values.len() ==> -400 * one() <= #[trigger] values[k] <= 400 * one(),
        n <= 4,
    ensures
        ({
            let after = spread(values, w, h, x, y, err, Dither::FloydSteinberg, n);
            let i = y * w + x + 1;
            let gain = total(after, i) - total(values, i);
            &&& after.len() == values.len()
            &&& -(18 * n) * bit() <= 16 * gain - handed(w, h, x, y, n) * err <= (18 * n) * bit()
            &&& forall|k: int|
                y * w + x < k < values.len() ==> -(400 + 56 * n) * one() <= #[trigger] after[k]
                    <= (400 + 56 * n) * one()
        }),
    decreases n,
{
    lemma_units();
    lemma_around(w, h, x, y);
    let d = Dither::FloydSteinberg;
    let i = y * w + x + 1;
    if n == 0 {
        assert(handed(w, h, x, y, 0) * err == 0) by (nonlinear_arith)
            requires
                handed(w, h, x, y, 0) == 0,
        ;
    } else {
        let m = (n - 1) as nat;
        lemma_spread_total(values, w, h, x, y, err, m);
        let before = spread(values, w, h, x, y, err, d, m);
        let after = spread(values, w, h, x, y, err, d, n);
        let share = kernel(d)[n - 1];
        let weight = share.weight as int;
        let lo = handed(w, h, x, y, m);
        assert((400 + 56 * m) * one() <= (400 + 56 * n) * one() && -(400 + 56 * n) * one() <= -(400
            + 56 * m) * one()) by (nonlinear_arith)
            requires
                n == m + 1,
                one() >= 0,
        ;
        assert((18 * n) * bit() == (18 * m) * bit() + 18 * bit() && -(18 * n) * bit() == -(18 * m)
            * bit() - 18 * bit()) by (nonlinear_arith)
            requires
                n == m + 1,
        ;
        if lands(share, w, h, x, y) {
            let at = (y + share.dy) * w + (x + share.dx);
            assert(1 <= weight <= 7 && (share.dy == 0 || share.dy == 1) && -1 <= share.dx <= 1);
            assert(share.dy == 0 ==> share.dx == 1);
            assert(y * w + x < at < values.len());
            lemma_part(err, weight, d);
            let part = part_of(err, weight, share_bits(d));
            assert((8 * weight) * one() <= 56 * one() && -(8 * weight) * one() >= -56 * one())
                by (nonlinear_arith)
                requires
                    weight <= 7,
                    one() >= 0,
            ;
            let v = before[at];
            assert((400 + 56 * m) * one() + 56 * one() == (400 + 56 * n) * one()) by (nonlinear_arith)
                requires
                    n == m + 1,
            ;
            assert(-(400 + 56 * m) * one() == -((400 + 56 * m) * one()) && -(400 + 56 * n) * one()
                == -((400 + 56 * n) * one())) by (nonlinear_arith);
            assert((400 + 56 * n) * one() <= 1000 * one()) by (nonlinear_arith)
                requires
                    n <= 4,
                    one() >= 0,
            ;
            lemma_round_within(v + part, (400 + 56 * n) as int, (400 + 56 * n) as int);
            lemma_round_near(v + part);
            lemma_total_update(before, i, at, sum(v, part));
            assert((lo + weight) * err == lo * err + weight * err) by (nonlinear_arith);
        } else {
            assert((lo + 0) * err == lo * err);
        }
    }
}

/// How many sixteenths of a pixel's error fall off the edges of the picture.
pub open spec fn sixteenths_lost(w: int, h: int, x: int, y: int) -> int {
    (if x + 1 < w {
        0int
    } else {
        7
    }) + (if y + 1 < h {
        (if x >= 1 {
            0int
        } else {
            3
        }) + (if x + 1 < w {
            0int
        } else {
            1
        })
    } else {
        9
    })
}

proof fn lemma_handed(w: int, h: int, x: int, y: int)
    requires
        0 <= x < w,
        0 <= y < h,
    ensures
        handed(w, h, x, y, 4) == 16 - sixteenths_lost(w, h, x, y),
{
    reveal_with_fuel(handed, 5);
}

/// How many sixteenths the pixel at place `k` has got from those before place `i`.
spec fn got(w: int, i: int, k: int) -> int {
    let x = k % w;
    let y = k / w;
    (if x >= 1 && k - 1 < i {
        7int
    } else {
        0
    }) + (if y >= 1 && x + 1 < w && k - w + 1 < i {
        3int
    } else {
        0
    }) + (if y >= 1 && k - w < i {
        5int
    } else {
        0
    }) + (if y >= 1 && x >= 1 && k - w - 1 < i {
        1int
    } else {
        0
    })
}

/// Whether a value is within what its own shade and `s` sixteenths of errors can
/// make of it.
spec fn is_within(value: int, shade: int, s: int) -> bool {
    -(8 * s) * one() <= value <= (shade + 8 * s) * one()
}

spec fn all_within(rows: Seq<Seq<u8>>, w: int, values: Seq<int>, i: int) -> bool {
    &&& values.len() == rows.len() * w
    &&& forall|k: int|
        i <= k < values.len() ==> is_within(
            #[trigger] values[k],
            rows[k / w][k % w] as int,
            got(w, i, k),
        )
}

/// The error of a value within its bounds is within its own.
proof fn lemma_error(value: int, shade: int, s: int)
    requires
        0 <= shade <= 255,
        0 <= s <= 16,
        is_within(value, shade, s),
    ensures
        ({
            let exact = value - if is_dark(value) {
                0
            } else {
                255 * one()
            };
            &&& -128 * one() <= error_of(value) <= 128 * one()
            &&& -bit() <= error_of(value) - exact <= bit()
            &&& -128 * one() <= value <= 383 * one()
        }),
{
    lemma_units();
    let u = one();
    assert(-128 * u <= -(8 * s) * u && (shade + 8 * s) * u <= 383 * u) by (nonlinear_arith)
        requires
            u >= 0,
            0 <= s <= 16,
            0 <= shade <= 255,
    ;
    assert(128 * u == whole(128) && 255 * u == whole(255));
    if is_dark(value) {
        lemma_round_within(value - 0, 128, 128);
        lemma_round_near(value - 0);
    } else {
        lemma_round_within(value - 255 * u, 128, 128);
        lemma_round_near(value - 255 * u);
    }
}

proof fn lemma_wider_within(value: int, shade: int, s: int, t: int)
    requires
        is_within(value, shade, s),
        s <= t,
    ensures
        is_within(value, shade, t),
{
    lemma_units();
    assert((shade + 8 * s) * one() <= (shade + 8 * t) * one() && -(8 * t) * one() <= -(8 * s)
        * one()) by (nonlinear_arith)
        requires
            s <= t,
            one() >= 0,
    ;
}

proof fn lemma_received(value: int, shade: int, s: int, err: int, share: int)
    requires
        0 <= shade <= 255,
        0 <= s,
        s + share <= 16,
        share == 7 || share == 5 || share == 3 || share == 1,
        is_within(value, shade, s),
        -128 * one() <= err <= 128 * one(),
    ensures
        is_within(sum(value, part_of(err, share, 4)), shade, s + share),
{
    lemma_units();
    lemma_part(err, share, Dither::FloydSteinberg);
    let u = one();
    let part = part_of(err, share, 4);
    let hi = shade + 8 * (s + share);
    let lo = 8 * (s + share);
    assert(hi * u == (shade + 8 * s) * u + (8 * share) * u && -(lo * u) == -(8 * s) * u + -(8
        * share) * u && -(lo * u) == -(8 * (s + share)) * u) by (nonlinear_arith)
        requires
            hi == shade + 8 * (s + share),
            lo == 8 * (s + share),
    ;
    lemma_round_within(value + part, lo, hi);
}

/// The pixel at place `i` hands on what the one at place `k` gets.
proof fn lemma_got(w: int, h: int, x: int, y: int, k: int)
    requires
        0 <= x < w,
        0 <= y < h,
        y * w + x < k < h * w,
    ensures
        got(w, y * w + x + 1, k) == got(w, y * w + x, k) + sixteenths(x, y, k % w, k / w),
        0 <= got(w, y * w + x, k),
        got(w, y * w + x + 1, k) <= 16,
{
    let i = y * w + x;
    lemma_around(w, h, x, y);
    let u = k % w;
    let v = k / w;
    assert(k == v * w + u && 0 <= u < w && v >= 0) by (nonlinear_arith)
        requires
            u == k % w,
            v == k / w,
            w > 0,
            k >= 0,
    ;
    assert(v == y ==> v * w == y * w);
    assert(v == y + 1 ==> v * w == y * w + w);
}

proof fn lemma_row_and_column(w: int, h: int, k: int)
    requires
        w > 0,
        0 <= k < h * w,
    ensures
        0 <= k % w < w,
        0 <= k / w < h,
        (k / w) * w + k % w == k,
{
    assert(0 <= k % w < w && 0 <= k / w < h && (k / w) * w + k % w == k) by (nonlinear_arith)
        requires
            w > 0,
            0 <= k < h * w,
    ;
}

proof fn lemma_stays_within(rows: Seq<Seq<u8>>, w: int, i: int)
    requires
        w > 0,
        0 <= i < rows.len() * w,
        all_within(rows, w, diffused(rows, w, Dither::FloydSteinberg, i as nat), i),
    ensures
        all_within(
            rows,
            w,
            diffused(rows, w, Dither::FloydSteinberg, (i + 1) as nat),
            i + 1,
        ),
{
    let d = Dither::FloydSteinberg;
    let h = rows.len() as int;
    let before = diffused(rows, w, d, i as nat);
    let after = diffused(rows, w, d, (i + 1) as nat);
    lemma_row_and_column(w, h, i);
    let x = i % w;
    let y = i / w;
    let err = error_of(before[i]);
    assert(is_within(before[i], rows[y][x] as int, got(w, i, i)));
    lemma_error(before[i], rows[y][x] as int, got(w, i, i));
    assert(after == spread(before, w, h, x, y, err, d, 4));
    lemma_floyd(before, w, h, x, y, err, i);
    assert forall|k: int| i + 1 <= k < after.len() implies is_within(
        #[trigger] after[k],
        rows[k / w][k % w] as int,
        got(w, i + 1, k),
    ) by {
        lemma_floyd(before, w, h, x, y, err, k);
        lemma_got(w, h, x, y, k);
        let shade = rows[k / w][k % w] as int;
        let s = sixteenths(x, y, k % w, k / w);
        assert(is_within(before[k], shade, got(w, i, k)));
        if s > 0 {
            lemma_received(before[k], shade, got(w, i, k), err, s);
        }
    }
}

proof fn lemma_within(rows: Seq<Seq<u8>>, w: int, i: int)
    requires
        w > 0,
        0 <= i <= rows.len() * w,
    ensures
        all_within(rows, w, diffused(rows, w, Dither::FloydSteinberg, i as nat), i),
    decreases i,
{
    let d = Dither::FloydSteinberg;
    if i == 0 {
        lemma_units();
        let values = shades(rows, w);
        assert(diffused(rows, w, d, 0) == values);
        assert forall|k: int| 0 <= k < values.len() implies is_within(
            #[trigger] values[k],
            rows[k / w][k % w] as int,
            got(w, 0, k),
        ) by {
            lemma_row_and_column(w, rows.len() as int, k);
            let shade = rows[k / w][k % w] as int;
            assert(values[k] == shade * one());
            assert((shade + 8 * 0) * one() == shade * one() && -(8 * 0int) * one() == 0 && 0 <= shade
                * one()) by (nonlinear_arith)
                requires
                    shade >= 0,
                    one() >= 0,
            ;
            assert(is_within(values[k], shade, 0));
            lemma_wider_within(values[k], shade, 0, got(w, 0, k));
        }
    } else {
        lemma_within(rows, w, i - 1);
        lemma_stays_within(rows, w, i - 1);
    }
}

/// How many of the first `n` pixels in reading order come out white.
spec fn lit(rows: Seq<Seq<u8>>, w: int, n: int) -> int
    decreases n,
{
    if n <= 0 {
        0
    } else {
        lit(rows, w, n - 1) + if is_dark(
            diffused(rows, w, Dither::FloydSteinberg, (n - 1) as nat)[n - 1],
        ) {
            0int
        } else {
            1
        }
    }
}

/// How many sixteenths of errors fall off the edges from the first `n` pixels.
spec fn lost(w: int, h: int, n: int) -> int
    decreases n,
{
    if n <= 0 {
        0
    } else {
        lost(w, h, n - 1) + sixteenths_lost(w, h, (n - 1) % w, (n - 1) / w)
    }
}

/// What is printed and what is still to come, in all.
spec fn balance(rows: Seq<Seq<u8>>, w: int, i: int) -> int {
    lit(rows, w, i) * (255 * one()) + total(
        diffused(rows, w, Dither::FloydSteinberg, i as nat),
        i,
    )
}

proof fn lemma_balance_step(rows: Seq<Seq<u8>>, w: int, i: int)
    requires
        w > 0,
        0 <= i < rows.len() * w,
    ensures
        ({
            let gain = balance(rows, w, i + 1) - balance(rows, w, i);
            let off = sixteenths_lost(w, rows.len() as int, i % w, i / w) * (128 * one()) + 88
                * bit();
            -off <= 16 * gain <= off
        }),
{
    let d = Dither::FloydSteinberg;
    let h = rows.len() as int;
    let before = diffused(rows, w, d, i as nat);
    let after = diffused(rows, w, d, (i + 1) as nat);
    lemma_units();
    lemma_within(rows, w, i);
    lemma_row_and_column(w, h, i);
    let x = i % w;
    let y = i / w;
    let value = before[i];
    let err = error_of(value);
    assert(is_within(value, rows[y][x] as int, got(w, i, i)));
    lemma_error(value, rows[y][x] as int, got(w, i, i));
    assert forall|k: int| i < k < before.len() implies -400 * one() <= #[trigger] before[k] <= 400
        * one() by {
        lemma_row_and_column(w, h, k);
        assert(is_within(before[k], rows[k / w][k % w] as int, got(w, i, k)));
        lemma_error(before[k], rows[k / w][k % w] as int, got(w, i, k));
    }
    lemma_spread_total(before, w, h, x, y, err, 4);
    lemma_handed(w, h, x, y);
    assert(after == spread(before, w, h, x, y, err, d, 4));
    let gone = sixteenths_lost(w, h, x, y);
    let moved = total(after, i + 1) - total(before, i + 1);
    assert(total(before, i) == value + total(before, i + 1));
    let white = if is_dark(value) {
        0int
    } else {
        1
    };
    assert((lit(rows, w, i) + white) * (255 * one()) == lit(rows, w, i) * (255 * one()) + white
        * (255 * one())) by (nonlinear_arith);
    let gain = balance(rows, w, i + 1) - balance(rows, w, i);
    assert(white * (255 * one()) == if is_dark(value) {
        0
    } else {
        255 * one()
    });
    assert(gain == white * (255 * one()) - value + moved);
    assert((16 - gone) * err == 16 * err - gone * err) by (nonlinear_arith);
    assert(-(gone * (128 * one())) <= gone * err <= gone * (128 * one())) by (nonlinear_arith)
        requires
            0 <= gone,
            -128 * one() <= err <= 128 * one(),
    ;
    let passed = handed(w, h, x, y, 4) * err;
    assert(passed == (16 - gone) * err);
    assert(-72 * bit() <= 16 * moved - passed <= 72 * bit());
    let exact = value - white * (255 * one());
    assert(-bit() <= err - exact <= bit());
    assert(16 * gain == 16 * moved - 16 * exact);
}

/// What is lost up to the pixel in column `x` of row `y`, at most.
spec fn loss_bound(w: int, h: int, n: int) -> int {
    let x = n % w;
    let y = n / w;
    if y + 1 < h {
        11 * y + if x > 0 {
            3
        } else {
            0int
        }
    } else if y + 1 == h {
        11 * y + 9 * x
    } else {
        11 * (h - 1) + 9 * w + 7
    }
}

proof fn lemma_loss(w: int, h: int, n: int)
    requires
        w > 0,
        h > 0,
        0 <= n <= h * w,
    ensures
        lost(w, h, n) <= loss_bound(w, h, n),
    decreases n,
{
    if n > 0 {
        lemma_loss(w, h, n - 1);
        lemma_row_and_column(w, h, n - 1);
        lemma_around(w, h, (n - 1) % w, (n - 1) / w);
    } else {
        assert(0int / w == 0 && 0int % w == 0) by (nonlinear_arith)
            requires
                w > 0,
        ;
    }
}

proof fn lemma_balance(rows: Seq<Seq<u8>>, w: int, n: int)
    requires
        w > 0,
        0 <= n <= rows.len() * w,
    ensures
        ({
            let gain = balance(rows, w, n) - balance(rows, w, 0);
            let off = lost(w, rows.len() as int, n) * (128 * one()) + n * (88 * bit());
            -off <= 16 * gain <= off
        }),
    decreases n,
{
    if n > 0 {
        let h = rows.len() as int;
        lemma_balance(rows, w, n - 1);
        lemma_balance_step(rows, w, n - 1);
        let a = lost(w, h, n - 1);
        let b = sixteenths_lost(w, h, (n - 1) % w, (n - 1) / w);
        assert((a + b) * (128 * one()) == a * (128 * one()) + b * (128 * one()) && n * (88 * bit())
            == (n - 1) * (88 * bit()) + 88 * bit()) by (nonlinear_arith);
    } else {
        assert(0 * (128 * one()) == 0 && 0 * (88 * bit()) == 0);
    }
}

/// How many of the first `n` pixels of a print, `w` to a row, are white.
pub open spec fn white_pixels(out: Seq<Seq<u8>>, w: int, n: int) -> int
    decreases n,
{
    if n <= 0 {
        0
    } else {
        white_pixels(out, w, n - 1) + if row_pixel(out[(n - 1) / w], (n - 1) % w) {
            0int
        } else {
            1
        }
    }
}

/// The sum of the shades of the first `n` pixels of a picture, `w` to a row.
pub open spec fn shade_sum(rows: Seq<Seq<u8>>, w: int, n: int) -> int
    decreases n,
{
    if n <= 0 {
        0
    } else {
        shade_sum(rows, w, n - 1) + rows[(n - 1) / w][(n - 1) % w]
    }
}

proof fn lemma_shade_total(rows: Seq<Seq<u8>>, w: int, a: int)
    requires
        w > 0,
        0 <= a <= rows.len() * w,
    ensures
        total(shades(rows, w), 0) == shade_sum(rows, w, a) * one() + total(shades(rows, w), a),
    decreases a,
{
    lemma_units();
    if a > 0 {
        lemma_shade_total(rows, w, a - 1);
        let values = shades(rows, w);
        let shade = rows[(a - 1) / w][(a - 1) % w] as int;
        assert(values[a - 1] == shade * one());
        assert(total(values, a - 1) == values[a - 1] + total(values, a));
        assert((shade_sum(rows, w, a - 1) + shade) * one() == shade_sum(rows, w, a - 1) * one()
            + shade * one()) by (nonlinear_arith);
    } else {
        assert(0 * one() == 0);
    }
}

proof fn lemma_lit(rows: Seq<Seq<u8>>, width: u32, out: Seq<Seq<u8>>, n: int)
    requires
        width > 0,
        is_dithered(rows, width, Dither::FloydSteinberg, out),
        0 <= n <= rows.len() * printed_width(width),
    ensures
        white_pixels(out, printed_width(width), n) == lit(rows, printed_width(width), n),
    decreases n,
{
    if n > 0 {
        let w = printed_width(width);
        lemma_lit(rows, width, out, n - 1);
        lemma_row_and_column(w, rows.len() as int, n - 1);
        let x = (n - 1) % w;
        let y = (n - 1) / w;
        assert(row_pixel(out[y], x) == is_black(rows, w, Dither::FloydSteinberg, x, y));
    }
}

/// Floyd–Steinberg keeps the tone of every picture: the white pixels, at 255 each,
/// add up to the shades of the picture, but for what falls off the edges, which is
/// no more than 88 for each row and 72 for each column, and for rounding, which is
/// no more than the 4096th part of a shade for each pixel.
pub proof fn floyd_steinberg_keeps_the_tone(rows: Seq<Seq<u8>>, width: u32, out: Seq<Seq<u8>>)
    requires
        width > 0,
        rows.len() > 0,
        is_dithered(rows, width, Dither::FloydSteinberg, out),
    ensures
        ({
            let w = if width < 384 {
                width as int
            } else {
                384
            };
            let h = rows.len() as int;
            let n = h * w;
            let off = 255 * white_pixels(out, w, n) - shade_sum(rows, w, n);
            let bound = 4096 * (88 * h + 72 * w) + n;
            -bound <= 4096 * off <= bound
        }),
{
    let w = printed_width(width);
    let h = rows.len() as int;
    let n = h * w;
    assert(n >= 0) by (nonlinear_arith)
        requires
            n == h * w,
            h > 0,
            w > 0,
    ;
    lemma_units();
    lemma_balance(rows, w, n);
    lemma_loss(w, h, n);
    lemma_lit(rows, width, out, n);
    lemma_shade_total(rows, w, n);
    lemma_within(rows, w, n);
    assert(n / w == h && n % w == 0) by {
        vstd::arithmetic::div_mod::lemma_fundamental_div_mod_converse(n, w, h, 0);
    }
    let white = white_pixels(out, w, n);
    let shade = shade_sum(rows, w, n);
    let off = 255 * white - shade;
    let gone = lost(w, h, n);
    let b = bit();
    assert(total(diffused(rows, w, Dither::FloydSteinberg, n as nat), n) == 0);
    assert(total(shades(rows, w), n) == 0);
    assert(balance(rows, w, 0) == shade * one()) by {
        assert(lit(rows, w, 0) == 0);
        assert(0 * (255 * one()) == 0);
    }
    let gain = balance(rows, w, n) - balance(rows, w, 0);
    assert(gain == off * (32_768 * b)) by (nonlinear_arith)
        requires
            gain == white * (255 * (32_768 * b)) - shade * (32_768 * b),
            off == 255 * white - shade,
    ;
    let edge = gone * (128 * (32_768 * b)) + n * (88 * b);
    assert(-edge <= 16 * gain <= edge);
    let bound = 4096 * (88 * h + 72 * w) + n;
    assert(-bound <= 4096 * off <= bound) by (nonlinear_arith)
        requires
            gain == off * (32_768 * b),
            edge == gone * (128 * (32_768 * b)) + n * (88 * b),
            -edge <= 16 * gain <= edge,
            gone <= 11 * h + 9 * w,
            bound == 4096 * (88 * h + 72 * w) + n,
            n >= 0,
            b > 0,
    {
        assert(edge <= (11 * h + 9 * w) * (128 * (32_768 * b)) + n * (128 * b)) by (nonlinear_arith)
            requires
                edge == gone * (128 * (32_768 * b)) + n * (88 * b),
                gone <= 11 * h + 9 * w,
                n >= 0,
                b > 0,
        ;
        assert((11 * h + 9 * w) * (128 * (32_768 * b)) + n * (128 * b) == (128 * b) * bound)
            by (nonlinear_arith)
            requires
                bound == 4096 * (88 * h + 72 * w) + n,
        ;
        assert(16 * gain == (128 * b) * (4096 * off)) by (nonlinear_arith)
            requires
                gain == off * (32_768 * b),
        ;
        assert(4096 * off <= bound) by (nonlinear_arith)
            requires
                (128 * b) * (4096 * off) <= (128 * b) * bound,
                b > 0,
        ;
        assert(-bound <= 4096 * off) by (nonlinear_arith)
            requires
                -((128 * b) * bound) <= (128 * b) * (4096 * off),
                b > 0,
        ;
    }
}

proof fn lemma_one_shade(rows: Seq<Seq<u8>>, w: int, v: u8, n: int)
    requires
        w > 0,
        0 <= n <= rows.len() * w,
        forall|y: int| 0 <= y < rows.len() ==> w <= (#[trigger] rows[y]).len(),
        is_uniform(rows, v),
    ensures
        shade_sum(rows, w, n) == v * n,
    decreases n,
{
    if n > 0 {
        lemma_one_shade(rows, w, v, n - 1);
        lemma_row_and_column(w, rows.len() as int, n - 1);
        assert(rows[(n - 1) / w].len() >= w);
        assert(rows[(n - 1) / w][(n - 1) % w] == v);
        assert(v * n == v * (n - 1) + v) by (nonlinear_arith);
    } else {
        assert(v * 0 == 0);
    }
}

/// A picture of one shade comes out with as many white pixels as the shade asks
/// for, but for what falls off the edges.
pub proof fn one_shade_prints_in_its_tone(
    rows: Seq<Seq<u8>>,
    width: u32,
    v: u8,
    out: Seq<Seq<u8>>,
)
    requires
        width > 0,
        rows.len() > 0,
        is_image(rows, width),
        is_uniform(rows, v),
        is_dithered(rows, width, Dither::FloydSteinberg, out),
    ensures
        ({
            let w = if width < 384 {
                width as int
            } else {
                384
            };
            let h = rows.len() as int;
            let off = 255 * white_pixels(out, w, h * w) - v * (h * w);
            let bound = 4096 * (88 * h + 72 * w) + h * w;
            -bound <= 4096 * off <= bound
        }),
{
    let w = printed_width(width);
    let h = rows.len() as int;
    assert(h * w >= 0) by (nonlinear_arith)
        requires
            h > 0,
            w > 0,
    ;
    floyd_steinberg_keeps_the_tone(rows, width, out);
    lemma_one_shade(rows, w, v, h * w);
}

/// The neighbours of a pixel get its error from Floyd–Steinberg in sixteenths:
/// seven to the right, three below to the left, five below and one below to the
/// right, up to rounding. No other pixel changes.
pub proof fn floyd_steinberg_hands_the_error_on(
    values: Seq<int>,
    w: int,
    h: int,
    x: int,
    y: int,
    err: int,
    k: int,
)
    requires
        0 <= x < w,
        0 <= y < h,
        values.len() == h * w,
        0 <= k < values.len(),
        -128 * one() <= err <= 128 * one(),
        -400 * one() <= values[k] <= 400 * one(),
    ensures
        ({
            let kernel_len = kernel(Dither::FloydSteinberg).len();
            let after = spread(values, w, h, x, y, err, Dither::FloydSteinberg, kernel_len);
            let s = sixteenths(x, y, k % w, k / w);
            let gain = after[k] - values[k];
            &&& s == 0 ==> gain == 0
            &&& -18 * bit() <= 16 * gain - s * err <= 18 * bit()
        }),
{
    lemma_units();
    lemma_floyd(values, w, h, x, y, err, k);
    let s = sixteenths(x, y, k % w, k / w);
    if s > 0 {
        lemma_part(err, s, Dither::FloydSteinberg);
        let part = part_of(err, s, 4);
        assert((8 * s) * one() <= 56 * one() && -(8 * s) * one() >= -56 * one()) by (nonlinear_arith)
            requires
                s <= 7,
                one() >= 0,
        ;
        lemma_round_near(values[k] + part);
    } else {
        assert(s * err == 0) by (nonlinear_arith)
            requires
                s == 0,
        ;
    }
}

#[verifier::spinoff_prover]
#[verifier::rlimit(60)]
proof fn lemma_atkinson(values: Seq<int>, w: int, h: int, x: int, y: int, err: int, k: int)
    requires
        0 <= x < w,
        0 <= y < h,
        values.len() == h * w,
        0 <= k < values.len(),
    ensures
        spread(values, w, h, x, y, err, Dither::Atkinson, 6)[k] == if eighths(x, y, k % w, k / w)
            == 0 {
            values[k]
        } else {
            sum(values[k], part_of(err, 1, 3))
        },
{
    let i = y * w + x;
    lemma_around(w, h, x, y);
    reveal_with_fuel(spread, 7);
    let u = k % w;
    let v = k / w;
    assert(k == v * w + u && 0 <= u < w && v >= 0) by (nonlinear_arith)
        requires
            u == k % w,
            v == k / w,
            w > 0,
            k >= 0,
    ;
    assert(k < h * w);
    assert(v < h) by (nonlinear_arith)
        requires
            v * w + u < h * w,
            u >= 0,
            w > 0,
    ;
    assert(v == y ==> v * w == y * w);
    assert(v == y + 1 ==> v * w == y * w + w);
    assert(v == y + 2 ==> v * w == y * w + 2 * w);
    assert(v < y ==> v * w + w <= y * w) by (nonlinear_arith)
        requires
            w > 0,
    ;
    assert(v > y + 2 ==> v * w >= y * w + 3 * w) by (nonlinear_arith)
        requires
            w > 0,
    ;
}

/// The neighbours of a pixel get an eighth of its error each from Atkinson: two to
/// the right, three below and one below these, up to rounding. The other quarter
/// is dropped, and no other pixel changes.
pub proof fn atkinson_hands_three_quarters_on(
    values: Seq<int>,
    w: int,
    h: int,
    x: int,
    y: int,
    err: int,
    k: int,
)
    requires
        0 <= x < w,
        0 <= y < h,
        values.len() == h * w,
        0 <= k < values.len(),
        -128 * one() <= err <= 128 * one(),
        -400 * one() <= values[k] <= 400 * one(),
    ensures
        ({
            let kernel_len = kernel(Dither::Atkinson).len();
            let after = spread(values, w, h, x, y, err, Dither::Atkinson, kernel_len);
            let s = eighths(x, y, k % w, k / w);
            let gain = after[k] - values[k];
            &&& s == 0 ==> gain == 0
            &&& -10 * bit() <= 8 * gain - s * err <= 10 * bit()
        }),
{
    lemma_units();
    lemma_atkinson(values, w, h, x, y, err, k);
    let s = eighths(x, y, k % w, k / w);
    if s > 0 {
        lemma_part(err, 1, Dither::Atkinson);
        lemma_round_near(values[k] + part_of(err, 1, 3));
    }
}

/// A pixel is black exactly if its value is below 128 steps, and its error is what
/// its value is off from black, 0, or white, 255, up to rounding.
pub proof fn pixels_go_to_the_nearer_of_black_and_white(value: int)
    requires
        -500 * one() <= value <= 500 * one(),
    ensures
        is_dark(value) == (value < 128 * one()),
        ({
            let shown = if value < 128 * one() {
                0
            } else {
                255 * one()
            };
            -bit() <= error_of(value) - (value - shown) <= bit()
        }),
{
    lemma_units();
    assert(whole(128) == 128 * one() && whole(255) == 255 * one());
    lemma_round_near(value - 0);
    if value >= 128 * one() {
        lemma_round_near(value - 255 * one());
    }
}

/// The threshold makes pixels below 128 black and all others white.
pub proof fn threshold_is_at_128(
    rows: Seq<Seq<u8>>,
    width: u32,
    out: Seq<Seq<u8>>,
    x: int,
    y: int,
)
    requires
        is_dithered(rows, width, Dither::Threshold, out),
        0 <= x < 384,
        0 <= y < rows.len(),
    ensures
        row_pixel(out[y], x) == (x < width && rows[y][x] < 128),
{
}

/// Scaling keeps the aspect ratio: at 384 columns a picture gets as many whole
/// rows as its own height and width call for, at least one and at most 4096.
pub proof fn scaling_keeps_the_aspect_ratio(width: u32, height: u32)
    requires
        width > 0,
    ensures
        ({
            let rows = prepared_height(width, height);
            &&& 1 <= rows <= 4096
            &&& rows > 1 ==> rows * width <= 384 * height
            &&& rows < 4096 ==> 384 * height < (rows + 1) * width
        }),
{
    let a = 384 * height;
    let w = width as int;
    let q = a / w;
    assert(q * w <= a < (q + 1) * w) by (nonlinear_arith)
        requires
            w > 0,
            q == a / w,
    ;
    if q > 4096 {
        assert(4096 * w <= q * w) by (nonlinear_arith)
            requires
                q > 4096,
                w > 0,
        ;
    }
    if q < 1 {
        assert((q + 1) * w <= 2 * w) by (nonlinear_arith)
            requires
                q < 1,
                w > 0,
        ;
    }
}

} // verus!
