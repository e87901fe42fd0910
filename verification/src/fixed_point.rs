//! Numbers with a fixed count of decimals, rounded the way binary floating
//! point rounds them.
//!
//! A binary floating-point number is modelled as a multiple of 2^-1074, fine
//! enough for binary64 and for the normal range of binary32; `limit` is 2^53 or
//! 2^24, the bound of the significand.

use crate::strings::{decimal, digit};
use vstd::prelude::*;
#[allow(unused_imports)]
use crate::rounding::{
    div_nearest_even, excess_bits, lemma_div_nearest_bounds, lemma_div_nearest_off_by_half,
    lemma_div_nearest_scaled, lemma_excess_bounds, lemma_excess_is, lemma_round_shifted,
    lemma_rounded_near, lemma_short_is_exact, rounded,
};
#[allow(unused_imports)]
use crate::strings::{decimal_digits, digit_char};
#[allow(unused_imports)]
use vstd::arithmetic::power2::{
    lemma2_to64, lemma_pow2_adds, lemma_pow2_pos, lemma_pow2_strictly_increases, lemma_pow2_unfold,
    pow2,
};

verus! {

/// Significand bound of binary32.
pub const LIMIT_32: u64 = 0x100_0000;

/// Significand bound of binary64.
pub const LIMIT_64: u64 = 0x20_0000_0000_0000;

/// Nanoseconds in a second.
pub const NANOS: u64 = 1_000_000_000;

/// The whole number `n` as a multiple of 2^-1074.
pub open spec fn units(n: nat) -> nat {
    n * pow2(1074)
}

/// `x / q`, rounded.
pub open spec fn ratio(x: nat, q: nat, limit: nat) -> nat {
    let unit = pow2(excess_bits(x / q, limit));
    (div_nearest_even(x as int, (q * unit) as int) * unit) as nat
}

/// A time in seconds: whole seconds plus nanoseconds over 10^9, each step
/// rounded.
pub open spec fn seconds(nanos: nat, limit: nat) -> nat {
    let fraction = ratio(rounded(units(nanos % NANOS as nat), limit), NANOS as nat, limit);
    rounded(rounded(units(nanos / NANOS as nat), limit) + fraction, limit)
}

/// A number times `scale`, to the nearest whole number, ties to even.
pub open spec fn scaled(v: nat, scale: nat) -> nat {
    div_nearest_even((v * scale) as int, pow2(1074) as int) as nat
}

/// A number of tenths as decimal text.
pub open spec fn tenths_text(t: nat) -> Seq<char> {
    decimal_digits(t / 10) + "."@ + seq![digit_char((t % 10) as int)]
}

/// A number of hundredths as decimal text.
pub open spec fn hundredths_text(h: nat) -> Seq<char> {
    decimal_digits(h / 100) + "."@ + seq![
        digit_char(((h / 10) % 10) as int),
        digit_char((h % 10) as int),
    ]
}

/// A time with one decimal, as binary64 gives it.
pub open spec fn secs_text(nanos: nat) -> Seq<char> {
    tenths_text(scaled(seconds(nanos, LIMIT_64 as nat), 10)) + "s"@
}

/// A time with one decimal, as binary32 gives it.
pub open spec fn short_secs_text(nanos: nat) -> Seq<char> {
    tenths_text(scaled(seconds(nanos, LIMIT_32 as nat), 10)) + "s"@
}

/// Millivolts as volts with two decimals, as binary32 gives them.
pub open spec fn volts_text(mv: nat) -> Seq<char> {
    hundredths_text(scaled(ratio(units(mv), 1000, LIMIT_32 as nat), 100))
}

/// Rounding commutes with scaling by a power of two.
proof fn lemma_round_scaled(n: nat, e: nat, limit: nat)
    requires
        limit >= 2,
        limit % 2 == 0,
    ensures
        rounded(n * pow2(e), limit) == rounded(n, limit) * pow2(e),
{
    if n < limit {
        lemma_short_is_exact(n, e, limit);
        lemma_short_is_exact(n, 0, limit);
        lemma2_to64();
        assert(n * 1 == n) by (nonlinear_arith);
    } else {
        lemma_round_shifted(n, e, limit);
    }
}

/// A power of two.
fn power(k: u64) -> (p: u128)
    requires
        k <= 120,
    ensures
        p == pow2(k as nat),
        p > 0,
{
    let mut p: u128 = 1;
    let mut i: u64 = 0;
    proof {
        lemma2_to64();
    }
    while i < k
        invariant
            i <= k <= 120,
            p == pow2(i as nat),
            p > 0,
        decreases k - i,
    {
        proof {
            lemma_pow2_unfold((i + 1) as nat);
            lemma_pow2_strictly_increases(i as nat, 120);
            lemma_power_120();
        }
        p = 2 * p;
        i = i + 1;
    }
    p
}

proof fn lemma_power_120()
    ensures
        pow2(120) == 0x100_0000_0000_0000_0000_0000_0000_0000int,
{
    lemma2_to64();
    vstd::arithmetic::power2::lemma2_to64_rest();
    lemma_pow2_adds(60, 60);
    assert(pow2(60) == 0x1000_0000_0000_0000);
    assert(pow2(120) == pow2(60) * pow2(60));
    assert(0x1000_0000_0000_0000int * 0x1000_0000_0000_0000int
        == 0x100_0000_0000_0000_0000_0000_0000_0000int);
}

/// Division to the nearest whole number, ties to even.
fn nearest(a: u128, b: u128) -> (q: u128)
    requires
        b > 0,
        a < 0x8000_0000_0000_0000_0000_0000_0000_0000,
    ensures
        q == div_nearest_even(a as int, b as int),
{
    let q: u128 = a / b;
    let r: u128 = a % b;
    proof {
        assert(q <= a) by (nonlinear_arith)
            requires
                q == a / b,
                b > 0,
        ;
    }
    if r < b - r || (r == b - r && q % 2 == 0) {
        q
    } else {
        q + 1
    }
}

/// A magnitude as significand and exponent.
struct Parts {
    significand: u64,
    exponent: u64,
}

/// Rounds `b` to a significand of at most `limit`.
fn round_wide(b: u128, limit: u64) -> (r: Parts)
    requires
        b < 0x100_0000_0000_0000_0000_0000_0000_0000,
        2 <= limit <= LIMIT_64,
        limit % 2 == 0,
    ensures
        rounded(b as nat, limit as nat) == r.significand * pow2(r.exponent as nat),
        r.significand <= limit,
        r.exponent == excess_bits(b as nat, limit as nat),
        r.exponent <= 120,
{
    let mut rest: u128 = b;
    let mut k: u64 = 0;
    let mut unit: u128 = 1;
    proof {
        lemma2_to64();
        lemma_power_120();
        assert(unit * rest == b) by (nonlinear_arith)
            requires
                unit == 1,
                rest == b,
        ;
    }
    while rest >= limit as u128
        invariant
            2 <= limit,
            excess_bits(b as nat, limit as nat) == k + excess_bits(rest as nat, limit as nat),
            unit == pow2(k as nat),
            unit * rest <= b,
            b < 0x100_0000_0000_0000_0000_0000_0000_0000,
            k <= 120,
            pow2(120) == 0x100_0000_0000_0000_0000_0000_0000_0000int,
        decreases rest,
    {
        proof {
            lemma_pow2_unfold((k + 1) as nat);
            lemma_pow2_pos(k as nat);
            assert(2 * unit <= b) by (nonlinear_arith)
                requires
                    unit * rest <= b,
                    rest >= 2,
                    unit > 0,
            ;
            assert((2 * unit) * (rest / 2) <= unit * rest) by (nonlinear_arith)
                requires
                    unit >= 0,
                    rest >= 0,
            ;
            if k == 120 {
                assert(false);
            }
        }
        rest = rest / 2;
        k = k + 1;
        unit = 2 * unit;
    }
    proof {
        lemma_pow2_pos(k as nat);
        lemma_excess_bounds(b as nat, limit as nat);
        lemma_div_nearest_bounds(b as int, unit as int);
        assert((b as int) / (unit as int) < limit) by (nonlinear_arith)
            requires
                b < limit * unit,
                unit > 0,
        ;
    }
    let m: u128 = nearest(b, unit);
    proof {
        assert(m * unit >= 0) by (nonlinear_arith)
            requires
                m >= 0,
                unit >= 0,
        ;
    }
    Parts { significand: m as u64, exponent: k }
}

/// A fraction below or equal to one as a significand over a power of two.
struct Fraction {
    significand: u64,
    shift: u64,
}

/// `n / q` rounded.
fn fraction(n: u64, q: u64, limit: u64) -> (f: Fraction)
    requires
        0 < q <= NANOS,
        0 < n,
        n < q * 70,
        LIMIT_32 <= limit <= LIMIT_64,
        limit % 2 == 0,
    ensures
        ratio(units(n as nat), q as nat, limit as nat) == f.significand * pow2(
            (1074 - f.shift) as nat,
        ),
        f.significand <= limit,
        f.shift <= 84,
{
    proof {
        assert(0 <= (limit / 2) * q <= 0x10_0000_0000_0000 * 1_000_000_000) by (nonlinear_arith)
            requires
                limit <= 0x20_0000_0000_0000,
                q <= 1_000_000_000,
        ;
    }
    let half: u128 = (limit as u128 / 2) * (q as u128);
    let mut x: u128 = n as u128;
    let mut t: u64 = 0;
    proof {
        lemma2_to64();
        assert(half >= 0x80_0000 * q) by (nonlinear_arith)
            requires
                half == (limit / 2) * q,
                limit >= 0x100_0000,
        ;
        assert(n * 1 == n) by (nonlinear_arith);
        vstd::arithmetic::power2::lemma2_to64_rest();
        lemma_pow2_adds(64, 20);
        assert(pow2(84) == 0x1_0000_0000_0000_0000int * 0x10_0000int);
    }
    while x < half
        invariant
            x == n * pow2(t as nat),
            t <= 84,
            0 < n,
            x < 2 * half,
            half <= 0x10_0000_0000_0000 * 1_000_000_000,
            pow2(84) == 0x1_0000_0000_0000_0000int * 0x10_0000int,
        decreases 84 - t,
    {
        proof {
            lemma_pow2_unfold((t + 1) as nat);
            lemma_pow2_pos(t as nat);
            assert(x >= pow2(t as nat)) by (nonlinear_arith)
                requires
                    x == n * pow2(t as nat),
                    n >= 1,
                    pow2(t as nat) > 0,
            ;
            assert(2 * x == n * pow2((t + 1) as nat)) by (nonlinear_arith)
                requires
                    x == n * pow2(t as nat),
                    pow2((t + 1) as nat) == 2 * pow2(t as nat),
            ;
            if t == 84 {
                assert(false);
            }
        }
        x = 2 * x;
        t = t + 1;
    }
    let a: u128 = nearest(x, q as u128);
    proof {
        let e = (1074 - t) as nat;
        let w = pow2(e);
        lemma_pow2_pos(e);
        lemma_pow2_adds(t as nat, e);
        let whole = units(n as nat);
        assert(whole == x * w) by (nonlinear_arith)
            requires
                whole == n * pow2(1074),
                pow2(1074) == pow2(t as nat) * w,
                x == n * pow2(t as nat),
        ;
        assert(x < limit * q) by (nonlinear_arith)
            requires
                x < 2 * half,
                half == (limit / 2) * q,
                limit % 2 == 0,
        ;
        let floor = (whole / q as nat) as int;
        let rest = (x * w) % (q as int);
        let h = (limit / 2) as int;
        vstd::arithmetic::div_mod::lemma_fundamental_div_mod(x * w, q as int);
        assert(x * w >= (h * w) * q) by (nonlinear_arith)
            requires
                x >= h * q,
                w > 0,
        ;
        assert(x * w < (limit * w) * q) by (nonlinear_arith)
            requires
                x < limit * q,
                w > 0,
        ;
        assert(floor >= h * w) by (nonlinear_arith)
            requires
                q * floor + rest >= (h * w) * q,
                rest < q,
                q > 0,
        ;
        assert(floor < limit * w) by (nonlinear_arith)
            requires
                q * floor + rest < (limit * w) * q,
                rest >= 0,
                q > 0,
        ;
        assert(limit * w == 2 * (h * w)) by (nonlinear_arith)
            requires
                limit == 2 * h,
        ;
        lemma_excess_is(whole / q as nat, e, limit as nat);
        lemma_div_nearest_scaled(x as int, q as int, w as int);
        lemma_div_nearest_bounds(x as int, q as int);
        assert((x as int) / (q as int) < limit) by (nonlinear_arith)
            requires
                x < limit * q,
                q > 0,
        ;
        assert(a * w >= 0) by (nonlinear_arith)
            requires
                a >= 0,
                w >= 0,
        ;
    }
    Fraction { significand: a as u64, shift: t }
}

/// `m * 2^k * scale / 2^t`, to the nearest whole number.
fn scale_parts(m: u64, k: u64, t: u64, scale: u64) -> (r: u128)
    requires
        m <= LIMIT_64,
        k <= t + 40,
        t <= 84,
        0 < scale <= 100,
    ensures
        r == scaled(m as nat * pow2(k as nat) * pow2((1074 - t) as nat), scale as nat),
{
    let ghost w = pow2((1074 - t) as nat);
    let ghost v = m as nat * pow2(k as nat) * w;
    let ghost p = pow2(k as nat);
    proof {
        assert(0 <= m * scale <= 0x20_0000_0000_0000 * 100) by (nonlinear_arith)
            requires
                m <= 0x20_0000_0000_0000,
                scale <= 100,
        ;
    }
    let product: u128 = (m as u128) * (scale as u128);
    proof {
        lemma2_to64();
        lemma_pow2_pos((1074 - t) as nat);
        lemma_pow2_adds(t as nat, (1074 - t) as nat);
        lemma_pow2_pos(t as nat);
        lemma_pow2_pos(k as nat);
        assert(v * scale == (product * p) * w) by (nonlinear_arith)
            requires
                v == (m * p) * w,
                product == m * scale,
        ;
        assert((m as nat * p) * w >= 0);
    }
    if k >= t {
        proof {
            let d = (k - t) as nat;
            lemma_pow2_adds(t as nat, d);
            if d < 40 {
                lemma_pow2_strictly_increases(d, 40);
            }
            vstd::arithmetic::power2::lemma2_to64_rest();
            let q = product * pow2(d);
            assert(0 <= q <= 0x20_0000_0000_0000 * 100 * 0x100_0000_0000) by (nonlinear_arith)
                requires
                    q == product * pow2(d),
                    product <= 0x20_0000_0000_0000 * 100,
                    0 <= pow2(d) <= 0x100_0000_0000,
            ;
            assert(v * scale == q * pow2(1074)) by (nonlinear_arith)
                requires
                    v * scale == (product * p) * w,
                    p == pow2(t as nat) * pow2(d),
                    pow2(1074) == pow2(t as nat) * w,
                    q == product * pow2(d),
            ;
            lemma_pow2_pos(1074);
            vstd::arithmetic::div_mod::lemma_fundamental_div_mod_converse(
                (v * scale) as int,
                pow2(1074) as int,
                q as int,
                0,
            );
        }
        product * power(k - t)
    } else {
        proof {
            let d = (t - k) as nat;
            let g = (p * w) as int;
            lemma_pow2_adds(k as nat, d);
            lemma_pow2_pos(d);
            assert(g > 0) by (nonlinear_arith)
                requires
                    g == p * w,
                    p > 0,
                    w > 0,
            ;
            assert(v * scale == product * g && pow2(1074) == pow2(d) * g) by (nonlinear_arith)
                requires
                    v * scale == (product * p) * w,
                    g == p * w,
                    pow2(t as nat) == p * pow2(d),
                    pow2(1074) == pow2(t as nat) * w,
            ;
            lemma_div_nearest_scaled(product as int, pow2(d) as int, g);
            lemma_div_nearest_bounds(product as int, pow2(d) as int);
        }
        nearest(product, power(t - k))
    }
}

/// A time in seconds times `scale`, rounded.
fn scaled_seconds(nanos: u64, limit: u64, scale: u64) -> (r: u128)
    requires
        LIMIT_32 <= limit <= LIMIT_64,
        limit % 2 == 0,
        0 < scale <= 100,
    ensures
        r == scaled(seconds(nanos as nat, limit as nat), scale as nat),
{
    let s: u64 = nanos / NANOS;
    let n: u64 = nanos % NANOS;
    let whole: Parts = round_wide(s as u128, limit);
    let part: Parts = round_wide(n as u128, limit);
    let ghost lim = limit as nat;
    proof {
        lemma2_to64();
        lemma_small_rounded(s, limit);
        lemma_small_rounded(n, limit);
        lemma_round_scaled(s as nat, 1074, lim);
        lemma_round_scaled(n as nat, 1074, lim);
    }
    let whole_secs: u64 = (whole.significand as u128 * power(whole.exponent)) as u64;
    let nano_part: u64 = (part.significand as u128 * power(part.exponent)) as u64;
    assert(whole_secs == rounded(s as nat, lim));
    assert(nano_part == rounded(n as nat, lim));
    let f: Fraction = if nano_part == 0 {
        proof {
            assert(units(0) == 0) by (nonlinear_arith);
            lemma_zero_ratio(NANOS as nat, lim);
            assert(0 * pow2(1074) == 0) by (nonlinear_arith);
        }
        Fraction { significand: 0, shift: 0 }
    } else {
        fraction(nano_part, NANOS, limit)
    };
    let ghost w = pow2((1074 - f.shift) as nat);
    proof {
        lemma_power_120();
        lemma_pow2_pos(f.shift as nat);
        if f.shift < 84 {
            lemma_pow2_strictly_increases(f.shift as nat, 84);
        }
        vstd::arithmetic::power2::lemma2_to64_rest();
        lemma_pow2_adds(64, 20);
        assert(pow2(84) == 0x1_0000_0000_0000_0000int * 0x10_0000int);
        assert(whole_secs * pow2(f.shift as nat) <= 0x8_0000_0000 * pow2(84)) by (nonlinear_arith)
            requires
                whole_secs <= 0x8_0000_0000,
                0 < pow2(f.shift as nat) <= pow2(84),
        ;
    }
    let total: u128 = (whole_secs as u128) * power(f.shift) + (f.significand as u128);
    let r: Parts = round_wide(total, limit);
    proof {
        lemma_pow2_adds(f.shift as nat, (1074 - f.shift) as nat);
        lemma_round_scaled(total as nat, (1074 - f.shift) as nat, lim);
        let fraction = ratio(rounded(units(n as nat), lim), NANOS as nat, lim);
        assert(rounded(units(n as nat), lim) == units(nano_part as nat));
        assert(rounded(units(s as nat), lim) + fraction == total as nat * w) by (nonlinear_arith)
            requires
                rounded(units(s as nat), lim) == whole_secs * pow2(1074),
                fraction == f.significand * w,
                total == whole_secs * pow2(f.shift as nat) + f.significand,
                pow2(1074) == pow2(f.shift as nat) * w,
        ;
        lemma_excess_small(total as nat, f.shift as nat, lim, whole_secs, f.significand);
    }
    scale_parts(r.significand, r.exponent, f.shift, scale)
}

/// The excess bits of a time stay near its binary point.
proof fn lemma_excess_small(total: nat, t: nat, limit: nat, s: u64, a: u64)
    requires
        total == s * pow2(t) + a,
        s <= 0x8_0000_0000,
        a <= limit,
        limit >= LIMIT_32,
        limit % 2 == 0,
    ensures
        excess_bits(total, limit) <= t + 40,
{
    let k = excess_bits(total, limit);
    lemma_excess_bounds(total, limit);
    if k > t + 40 {
        lemma2_to64();
        vstd::arithmetic::power2::lemma2_to64_rest();
        lemma_pow2_pos(t);
        lemma_pow2_adds(t, 40);
        lemma_pow2_strictly_increases(t + 40, k);
        assert(false) by (nonlinear_arith)
            requires
                total == s * pow2(t) + a,
                s <= 0x8_0000_0000,
                a <= limit,
                limit >= 0x100_0000,
                limit * pow2(k) <= 2 * total,
                pow2(k) >= pow2(t + 40),
                pow2(t + 40) == pow2(t) * 0x100_0000_0000,
                pow2(t) >= 1,
        ;
    }
}

proof fn lemma_zero_ratio(q: nat, limit: nat)
    requires
        q > 0,
        limit >= 2,
    ensures
        ratio(0, q, limit) == 0,
{
    vstd::arithmetic::div_mod::lemma_fundamental_div_mod_converse(0, q as int, 0, 0);
    lemma2_to64();
    assert(excess_bits(0, limit) == 0);
    assert(q * 1 == q) by (nonlinear_arith);
    assert(div_nearest_even(0, q as int) == 0);
}

/// Rounding a whole number of seconds or nanoseconds keeps it small.
proof fn lemma_small_rounded(n: u64, limit: u64)
    requires
        n <= 0x4_4b82_fa0a,
        LIMIT_32 <= limit <= LIMIT_64,
        limit % 2 == 0,
    ensures
        rounded(n as nat, limit as nat) <= 0x8_0000_0000,
        n < NANOS ==> rounded(n as nat, limit as nat) < NANOS * 70,
        n == 0 ==> rounded(n as nat, limit as nat) == 0,
{
    let k = excess_bits(n as nat, limit as nat);
    let unit = pow2(k);
    lemma_excess_bounds(n as nat, limit as nat);
    lemma_pow2_pos(k);
    lemma_div_nearest_bounds(n as int, unit as int);
    lemma2_to64();
    assert(k > 0 ==> unit <= n) by (nonlinear_arith)
        requires
            k > 0 ==> limit * unit <= 2 * n,
            limit >= 0x100_0000,
            unit > 0,
    ;
    let q = n as int / unit as int;
    assert(q * unit <= n) by (nonlinear_arith)
        requires
            q == n as int / unit as int,
            unit > 0,
    ;
    let d = div_nearest_even(n as int, unit as int);
    assert(0 <= d * unit <= n + unit) by (nonlinear_arith)
        requires
            0 <= d <= q + 1,
            q * unit <= n,
            unit > 0,
    ;
    assert(limit >= 0x100_0000);
    if k > 0 {
        assert(0x80_0000 * unit <= n) by (nonlinear_arith)
            requires
                limit * unit <= 2 * n,
                limit >= 0x100_0000,
                unit > 0,
        ;
    }
    if n == 0 {
        lemma_short_is_exact(0, 0, limit as nat);
    }
}

/// Tenths as text.
fn tenths(t: u128) -> (text: String)
    ensures
        text@ == tenths_text(t as nat),
{
    let mut text: String = decimal(t / 10);
    text.append(".");
    text.push(digit((t % 10) as u8));
    assert(text@ =~= tenths_text(t as nat));
    text
}

/// Render a duration the way a person reads it off a stopwatch.
pub fn secs(nanos: u64) -> (text: String)
    ensures
        text@ == secs_text(nanos as nat),
{
    let mut text: String = tenths(scaled_seconds(nanos, LIMIT_64, 10));
    text.append("s");
    text
}

/// A duration in short form, from binary32 seconds.
pub fn short_secs(nanos: u64) -> (text: String)
    ensures
        text@ == short_secs_text(nanos as nat),
{
    let mut text: String = tenths(scaled_seconds(nanos, LIMIT_32, 10));
    text.append("s");
    text
}

/// A voltage with two decimals.
pub fn volts(mv: u16) -> (text: String)
    ensures
        text@ == volts_text(mv as nat),
{
    let h: u128 = if mv == 0 {
        proof {
            assert(units(0) == 0) by (nonlinear_arith);
            lemma_zero_ratio(1000, LIMIT_32 as nat);
            lemma_pow2_pos(1074);
            vstd::arithmetic::div_mod::lemma_fundamental_div_mod_converse(
                0,
                pow2(1074) as int,
                0,
                0,
            );
            assert(0nat * 100 == 0);
        }
        0
    } else {
        let f: Fraction = fraction(mv as u64, 1000, LIMIT_32);
        proof {
            lemma2_to64();
            assert(f.significand as nat * 1 == f.significand) by (nonlinear_arith);
        }
        scale_parts(f.significand, 0, f.shift, 100)
    };
    assert(h == scaled(ratio(units(mv as nat), 1000, LIMIT_32 as nat), 100));
    let mut text: String = decimal(h / 100);
    text.append(".");
    text.push(digit(((h / 10) % 10) as u8));
    text.push(digit((h % 10) as u8));
    assert(text@ =~= volts_text(mv as nat));
    text
}

/// Rounding is off by no more than one part in `limit`.
proof fn lemma_rounded_part(a: nat, limit: nat)
    requires
        limit >= 2,
        limit % 2 == 0,
    ensures
        -(a as int) <= limit * (rounded(a, limit) - a) <= a,
{
    let s = excess_bits(a, limit);
    lemma_excess_bounds(a, limit);
    lemma_rounded_near(a, s, limit);
    lemma2_to64();
    let unit = pow2(s) as int;
    let off = rounded(a, limit) - a;
    if s == 0 {
        assert(off == 0);
        assert(limit * off == 0) by (nonlinear_arith)
            requires
                off == 0,
        ;
    } else {
        assert(-(2 * a) <= 2 * (limit * off) <= 2 * a) by (nonlinear_arith)
            requires
                -unit <= 2 * off <= unit,
                limit * unit <= 2 * a,
                limit >= 2,
        ;
    }
}

/// A quotient is off by no more than one part in `limit`, and one.
proof fn lemma_ratio_part(x: nat, q: nat, limit: nat)
    requires
        limit >= 2,
        limit % 2 == 0,
        q > 0,
    ensures
        -(x + q * limit) <= limit * (q * ratio(x, q, limit) - x) <= x + q * limit,
{
    let s = excess_bits(x / q, limit);
    lemma_excess_bounds(x / q, limit);
    lemma_pow2_pos(s);
    lemma2_to64();
    let unit = pow2(s) as int;
    let b = q * unit;
    assert(b > 0) by (nonlinear_arith)
        requires
            b == q * unit,
            q > 0,
            unit > 0,
    ;
    let k = div_nearest_even(x as int, b);
    lemma_div_nearest_off_by_half(x as int, b);
    assert(k * unit >= 0) by (nonlinear_arith)
        requires
            k >= 0,
            unit > 0,
    ;
    let r = ratio(x, q, limit) as int;
    assert(r == k * unit);
    let off = q * r - x;
    assert(q * r == k * b) by (nonlinear_arith)
        requires
            r == k * unit,
            b == q * unit,
    ;
    assert(-b <= 2 * off <= b);
    let w = (x / q) as int;
    assert(q * w <= x) by (nonlinear_arith)
        requires
            w == x / q,
            q > 0,
    ;
    assert(limit * b <= 2 * x + q * limit) by {
        if s == 0 {
            assert(limit * b == q * limit) by (nonlinear_arith)
                requires
                    b == q * unit,
                    unit == 1,
            ;
        } else {
            assert(limit * b <= 2 * (q * w)) by (nonlinear_arith)
                requires
                    b == q * unit,
                    limit * unit <= 2 * w,
                    q > 0,
            ;
            assert(q * limit >= 0) by (nonlinear_arith)
                requires
                    q > 0,
                    limit >= 2,
            ;
        }
    }
    assert(q * limit >= 0) by (nonlinear_arith)
        requires
            q > 0,
            limit >= 2,
    ;
    assert(-(limit * b) <= 2 * (limit * off) <= limit * b) by (nonlinear_arith)
        requires
            -b <= 2 * off <= b,
            limit >= 2,
    ;
}

/// A part of the whole is small.
proof fn lemma_small_part(limit: int, off: int, bound: int)
    requires
        limit >= 2,
        bound >= 0,
        -bound <= limit * off <= bound,
    ensures
        -bound <= off <= bound,
{
    assert(-bound <= off <= bound) by (nonlinear_arith)
        requires
            limit >= 2,
            bound >= 0,
            -bound <= limit * off <= bound,
    ;
}

proof fn lemma_seconds_near(nanos: nat, limit: nat)
    requires
        limit >= 2,
        limit % 2 == 0,
    ensures
        ({
            let off = limit * (NANOS * seconds(nanos, limit) - units(nanos));
            let slack = 7 * units(nanos) + 2 * NANOS + NANOS * limit;
            -slack <= off <= slack
        }),
{
    let n = 1_000_000_000nat;
    let a0 = units(nanos % n);
    let a = rounded(a0, limit);
    let b = ratio(a, n, limit);
    let c0 = units(nanos / n);
    let c = rounded(c0, limit);
    let d = rounded(c + b, limit);
    lemma_rounded_part(a0, limit);
    lemma_ratio_part(a, n, limit);
    lemma_rounded_part(c0, limit);
    lemma_rounded_part(c + b, limit);
    let x = units(nanos) as int;
    let u = pow2(1074) as int;
    assert(x == n * c0 + a0) by (nonlinear_arith)
        requires
            x == nanos * u,
            c0 == (nanos / n) * u,
            a0 == (nanos % n) * u,
            n == 1_000_000_000,
    ;
    lemma_small_part(limit as int, a - a0, a0 as int);
    lemma_small_part(limit as int, c - c0, c0 as int);
    let e1 = d - (c + b);
    let e2 = c - c0;
    let e3 = n * b - a;
    let e4 = a - a0;
    assert(n * b <= 2 * a + n) by (nonlinear_arith)
        requires
            limit * (n * b - a) <= a + n * limit,
            limit >= 2,
            a >= 0,
    ;
    assert(n * d - x == n * e1 + n * e2 + e3 + e4);
    assert(limit * (n * d - x) == n * (limit * e1) + n * (limit * e2) + limit * e3 + limit * e4)
        by (nonlinear_arith)
        requires
            n * d - x == n * e1 + n * e2 + e3 + e4,
    ;
    assert(n * limit >= 0);
}

proof fn lemma_tiny(limit: nat)
    requires
        limit <= LIMIT_64,
    ensures
        4 * NANOS + 2 * (NANOS * limit) <= pow2(1074),
{
    lemma2_to64();
    vstd::arithmetic::power2::lemma2_to64_rest();
    lemma_power_120();
    lemma_pow2_strictly_increases(120, 1074);
}

/// How near a count of tenths is to a time: within half a tenth, but for what
/// rounding to a significand of `limit` makes of the time.
pub open spec fn are_tenths_of(tenths: int, nanos: nat, limit: nat) -> bool {
    let off = 100_000_000 * tenths - nanos;
    let slack = 100_000_000 * limit + 14 * nanos + 1;
    -slack <= 2 * (limit * off) <= slack
}

proof fn lemma_tenths(nanos: nat, limit: nat)
    requires
        2 <= limit <= LIMIT_64,
        limit % 2 == 0,
    ensures
        are_tenths_of(scaled(seconds(nanos, limit), 10) as int, nanos, limit),
{
    let d = seconds(nanos, limit);
    let u = pow2(1074) as int;
    lemma_pow2_pos(1074);
    lemma_seconds_near(nanos, limit);
    lemma_tiny(limit);
    lemma_div_nearest_off_by_half((d * 10) as int, u);
    let t = scaled(d, 10) as int;
    assert(t == div_nearest_even((d * 10) as int, u));
    let n = 1_000_000_000int;
    let x = units(nanos) as int;
    let e = t * u - 10 * d;
    let g = n * d - x;
    let off = 100_000_000 * t - nanos;
    assert(off * u == 100_000_000 * e + g) by (nonlinear_arith)
        requires
            off == 100_000_000 * t - nanos,
            e == t * u - 10 * d,
            g == n * d - x,
            x == nanos * u,
            n == 1_000_000_000,
    ;
    let slack = 100_000_000 * limit + 14 * nanos + 1;
    assert(-(limit * u) <= 2 * (limit * e) <= limit * u) by (nonlinear_arith)
        requires
            -u <= 2 * e <= u,
            limit >= 2,
    ;
    let lo = limit * off;
    assert(lo * u == 100_000_000 * (limit * e) + limit * g) by (nonlinear_arith)
        requires
            lo == limit * off,
            off * u == 100_000_000 * e + g,
    ;
    assert(slack * u == 100_000_000 * (limit * u) + 14 * (nanos * u) + u) by (nonlinear_arith)
        requires
            slack == 100_000_000 * limit + 14 * nanos + 1,
    ;
    assert(-(slack * u) <= 2 * (lo * u) <= slack * u);
    assert(-slack <= 2 * lo <= slack) by (nonlinear_arith)
        requires
            -(slack * u) <= 2 * (lo * u) <= slack * u,
            u > 0,
    ;
}

/// Times are shown to the nearest tenth of a second, as far as binary64 tells it:
/// whole seconds, a point, one digit and an `s`.
pub proof fn times_are_shown_to_the_tenth(nanos: nat)
    ensures
        exists|whole: nat, tenth: nat|
            tenth < 10 && #[trigger] are_tenths_of((10 * whole + tenth) as int, nanos, LIMIT_64 as nat)
                && secs_text(nanos) == decimal_digits(whole) + seq!['.'] + decimal_digits(tenth)
                + seq!['s'],
{
    let t = scaled(seconds(nanos, LIMIT_64 as nat), 10);
    lemma_tenths(nanos, LIMIT_64 as nat);
    lemma_tenths_text(t);
    reveal_strlit("s");
    assert("s"@ =~= seq!['s']);
    assert(are_tenths_of((10 * (t / 10) + t % 10) as int, nanos, LIMIT_64 as nat));
}

/// The same as far as binary32 tells it.
pub proof fn short_times_are_shown_to_the_tenth(nanos: nat)
    ensures
        exists|whole: nat, tenth: nat|
            tenth < 10 && #[trigger] are_tenths_of((10 * whole + tenth) as int, nanos, LIMIT_32 as nat)
                && short_secs_text(nanos) == decimal_digits(whole) + seq!['.'] + decimal_digits(
                tenth,
            ) + seq!['s'],
{
    let t = scaled(seconds(nanos, LIMIT_32 as nat), 10);
    lemma_tenths(nanos, LIMIT_32 as nat);
    lemma_tenths_text(t);
    reveal_strlit("s");
    assert("s"@ =~= seq!['s']);
    assert(are_tenths_of((10 * (t / 10) + t % 10) as int, nanos, LIMIT_32 as nat));
}

proof fn lemma_tenths_text(t: nat)
    ensures
        tenths_text(t) == decimal_digits(t / 10) + seq!['.'] + decimal_digits(t % 10),
        10 * (t / 10) + t % 10 == t,
{
    reveal_strlit(".");
    assert("."@ =~= seq!['.']);
    assert(decimal_digits(t % 10) =~= seq![digit_char((t % 10) as int)]);
}

/// Whether a count of hundredths is that of some millivolts: within half a
/// hundredth, but for what rounding to binary32 makes of them.
pub open spec fn are_hundredths_of(hundredths: int, mv: nat) -> bool {
    let off = 10 * hundredths - mv;
    let slack = 10 * LIMIT_32 + 2 * mv + 1;
    -slack <= 2 * (LIMIT_32 * off) <= slack
}

/// Volts are shown to the nearest hundredth: whole volts, a point and two digits.
pub proof fn volts_are_shown_to_the_hundredth(mv: nat)
    ensures
        exists|whole: nat, tenth: nat, hundredth: nat|
            tenth < 10 && hundredth < 10 && #[trigger] are_hundredths_of(
                (100 * whole + 10 * tenth + hundredth) as int,
                mv,
            ) && volts_text(mv) == decimal_digits(whole) + seq!['.'] + decimal_digits(tenth)
                + decimal_digits(hundredth),
{
    let limit = LIMIT_32 as nat;
    let x = units(mv);
    let r = ratio(x, 1000, limit);
    lemma_ratio_part(x, 1000, limit);
    lemma_tiny(limit);
    lemma_pow2_pos(1074);
    let u = pow2(1074) as int;
    lemma_div_nearest_off_by_half((r * 100) as int, u);
    let h = scaled(r, 100);
    let e = h * u - 100 * r;
    let g = 1000 * r - x;
    let off = 10 * h - mv;
    assert(off * u == 10 * e + g) by (nonlinear_arith)
        requires
            off == 10 * h - mv,
            e == h * u - 100 * r,
            g == 1000 * r - x,
            x == mv * u,
    ;
    assert(-(10 * (limit * u) + 2 * x + 2 * (1000 * limit)) <= 2 * (limit * (off * u)) <= 10 * (limit
        * u) + 2 * x + 2 * (1000 * limit));
    let lo = limit * off;
    let slack = 10 * limit + 2 * mv + 1;
    assert(limit * (off * u) == lo * u) by (nonlinear_arith)
        requires
            lo == limit * off,
    ;
    assert(slack * u == 10 * (limit * u) + 2 * (mv * u) + u) by (nonlinear_arith)
        requires
            slack == 10 * limit + 2 * mv + 1,
    ;
    assert(-(slack * u) <= 2 * (lo * u) <= slack * u);
    assert(-slack <= 2 * lo <= slack) by (nonlinear_arith)
        requires
            -(slack * u) <= 2 * (lo * u) <= slack * u,
            u > 0,
    ;
    let whole = h / 100;
    let tenth = (h / 10) % 10;
    let hundredth = h % 10;
    assert(100 * whole + 10 * tenth + hundredth == h);
    reveal_strlit(".");
    assert("."@ =~= seq!['.']);
    assert(decimal_digits(tenth) =~= seq![digit_char(tenth as int)]);
    assert(decimal_digits(hundredth) =~= seq![digit_char(hundredth as int)]);
    assert(volts_text(mv) =~= decimal_digits(whole) + seq!['.'] + decimal_digits(tenth)
        + decimal_digits(hundredth));
    assert(are_hundredths_of((100 * whole + 10 * tenth + hundredth) as int, mv));
}

} // verus!
