//! Rounding to a number of significant binary digits, to nearest with ties to
//! even, as binary floating point has it.

use vstd::prelude::*;
#[allow(unused_imports)]
use vstd::arithmetic::power2::{
    lemma2_to64, lemma_pow2_adds, lemma_pow2_pos, lemma_pow2_strictly_increases, lemma_pow2_unfold,
    pow2,
};

verus! {

/// `a / b` rounded to the nearest whole number, ties to even.
pub open spec fn div_nearest_even(a: int, b: int) -> int {
    let q = a / b;
    let r = a % b;
    if 2 * r < b || (2 * r == b && q % 2 == 0) {
        q
    } else {
        q + 1
    }
}

/// How many low bits a magnitude has beyond the significant ones of numbers
/// below `limit`, a power of two.
pub open spec fn excess_bits(a: nat, limit: nat) -> nat
    decreases a,
{
    if a < limit || limit < 2 {
        0
    } else {
        1 + excess_bits(a / 2, limit)
    }
}

/// A magnitude rounded to as many significant bits as numbers below `limit`
/// have, to nearest with ties to even.
pub open spec fn rounded(a: nat, limit: nat) -> nat {
    let unit = pow2(excess_bits(a, limit));
    (div_nearest_even(a as int, unit as int) * unit) as nat
}

proof fn lemma_half_of_double(a: nat)
    ensures
        (2 * a) / 2 == a,
{
}

/// Doubling a magnitude with all its significant bits adds one excess bit.
pub proof fn lemma_excess_of_double(a: nat, limit: nat)
    requires
        limit >= 2,
        limit % 2 == 0,
        2 * a >= limit,
    ensures
        excess_bits(2 * a, limit) == excess_bits(a, limit) + 1,
{
    lemma_half_of_double(a);
}

pub proof fn lemma_excess_shifted(a: nat, e: nat, limit: nat)
    requires
        limit >= 2,
        limit % 2 == 0,
        2 * a >= limit,
    ensures
        excess_bits(a * pow2(e), limit) == excess_bits(a, limit) + e,
    decreases e,
{
    if e == 0 {
        lemma2_to64();
        assert(a * 1 == a) by (nonlinear_arith);
    } else {
        let p = pow2((e - 1) as nat);
        lemma_pow2_unfold(e);
        lemma_pow2_pos((e - 1) as nat);
        lemma_excess_shifted(a, (e - 1) as nat, limit);
        assert(a * pow2(e) == 2 * (a * p)) by (nonlinear_arith)
            requires
                pow2(e) == 2 * p,
        ;
        assert(a * p >= a) by (nonlinear_arith)
            requires
                p >= 1,
                a >= 0,
        ;
        lemma_excess_of_double(a * p, limit);
    }
}

/// Scaling both numbers of a division leaves its rounding as it is.
pub proof fn lemma_div_nearest_scaled(a: int, b: int, k: int)
    requires
        a >= 0,
        b > 0,
        k > 0,
    ensures
        div_nearest_even(a * k, b * k) == div_nearest_even(a, b),
{
    let q = a / b;
    let r = a % b;
    assert(a == b * q + r && 0 <= r < b) by (nonlinear_arith)
        requires
            q == a / b,
            r == a % b,
            b > 0,
    ;
    assert(a * k == (b * k) * q + r * k) by (nonlinear_arith)
        requires
            a == b * q + r,
    ;
    assert(0 <= r * k < b * k) by (nonlinear_arith)
        requires
            0 <= r < b,
            k > 0,
    ;
    vstd::arithmetic::div_mod::lemma_fundamental_div_mod_converse(a * k, b * k, q, r * k);
    assert((2 * (r * k) < b * k) == (2 * r < b)) by (nonlinear_arith)
        requires
            k > 0,
    ;
    assert((2 * (r * k) == b * k) == (2 * r == b)) by (nonlinear_arith)
        requires
            k > 0,
    ;
}

/// Rounding commutes with scaling by a power of two.
pub proof fn lemma_round_shifted(a: nat, e: nat, limit: nat)
    requires
        limit >= 2,
        limit % 2 == 0,
        2 * a >= limit || e == 0,
    ensures
        rounded(a * pow2(e), limit) == rounded(a, limit) * pow2(e),
{
    lemma2_to64();
    lemma_pow2_pos(e);
    if e == 0 {
        assert(a * 1 == a) by (nonlinear_arith);
        assert(rounded(a, limit) * 1 == rounded(a, limit)) by (nonlinear_arith);
    } else {
        let s = excess_bits(a, limit);
        lemma_excess_shifted(a, e, limit);
        lemma_pow2_adds(s, e);
        lemma_pow2_pos(s);
        lemma_div_nearest_scaled(a as int, pow2(s) as int, pow2(e) as int);
        let q = div_nearest_even(a as int, pow2(s) as int);
        lemma_div_nearest_bounds(a as int, pow2(s) as int);
        assert(q * pow2(s) >= 0) by (nonlinear_arith)
            requires
                q >= 0,
                pow2(s) > 0,
        ;
        assert(q * (pow2(s) * pow2(e)) == (q * pow2(s)) * pow2(e)) by (nonlinear_arith);
    }
}

pub proof fn lemma_div_nearest_bounds(a: int, b: int)
    requires
        a >= 0,
        b > 0,
    ensures
        0 <= a / b <= div_nearest_even(a, b) <= a / b + 1,
{
    assert(0 <= a / b) by (nonlinear_arith)
        requires
            a >= 0,
            b > 0,
    ;
}

/// The excess bits of a magnitude are those above the limit's.
pub proof fn lemma_excess_bounds(a: nat, limit: nat)
    requires
        limit >= 2,
        limit % 2 == 0,
    ensures
        excess_bits(a, limit) > 0 ==> limit * pow2(excess_bits(a, limit)) <= 2 * a,
        a < limit * pow2(excess_bits(a, limit)),
    decreases a,
{
    lemma2_to64();
    if a >= limit {
        let h = a / 2;
        let s = excess_bits(h, limit);
        lemma_excess_bounds(h, limit);
        lemma_pow2_unfold(s + 1);
        assert(limit * (2 * pow2(s)) == 2 * (limit * pow2(s)))
            by (nonlinear_arith);
        assert(pow2(1) == 2);
        assert(limit * 1 == limit) by (nonlinear_arith);
        assert(limit * pow2(s + 1) == 2 * (limit * pow2(s)));
    } else {
        assert(limit * 1 == limit) by (nonlinear_arith);
    }
}

/// The excess bits are fixed by the binade that a magnitude lies in.
pub proof fn lemma_excess_is(a: nat, s: nat, limit: nat)
    requires
        limit >= 2,
        limit % 2 == 0,
        s > 0,
        limit * pow2(s) <= 2 * a,
        a < limit * pow2(s),
    ensures
        excess_bits(a, limit) == s,
{
    let t = excess_bits(a, limit);
    lemma_excess_bounds(a, limit);
    lemma2_to64();
    if t < s {
        lemma_pow2_unfold(s);
        if t < s - 1 {
            lemma_pow2_strictly_increases(t, (s - 1) as nat);
        }
        assert(2 * (limit * pow2(t)) <= limit * pow2(s))
            by (nonlinear_arith)
            requires
                pow2(t) <= pow2((s - 1) as nat),
                pow2(s) == 2 * pow2((s - 1) as nat),
        ;
    } else if t > s {
        lemma_pow2_unfold(t);
        if s < t - 1 {
            lemma_pow2_strictly_increases(s, (t - 1) as nat);
        }
        assert(2 * (limit * pow2(s)) <= limit * pow2(t))
            by (nonlinear_arith)
            requires
                pow2(s) <= pow2((t - 1) as nat),
                pow2(t) == 2 * pow2((t - 1) as nat),
        ;
    }
}

/// A number with few enough significant bits is not changed by rounding.
pub proof fn lemma_short_is_exact(m: nat, e: nat, limit: nat)
    requires
        limit >= 2,
        limit % 2 == 0,
        m < limit,
    ensures
        rounded(m * pow2(e), limit) == m * pow2(e),
    decreases e,
{
    lemma2_to64();
    if e == 0 || 2 * m >= limit {
        lemma_round_shifted(m, e, limit);
        assert(excess_bits(m, limit) == 0);
        assert(m as int / 1 == m && m as int % 1 == 0);
        assert(div_nearest_even(m as int, 1) == m);
        assert(m * 1 == m) by (nonlinear_arith);
        assert(rounded(m, limit) == m);
    } else {
        lemma_pow2_unfold(e);
        assert(m * pow2(e) == (2 * m) * pow2((e - 1) as nat)) by (nonlinear_arith)
            requires
                pow2(e) == 2 * pow2((e - 1) as nat),
        ;
        lemma_short_is_exact(2 * m, (e - 1) as nat, limit);
    }
}

/// Next to a number with full significand, anything under a quarter of its
/// last place is rounded away.
pub proof fn lemma_small_is_absorbed(h: nat, e: nat, small: nat, limit: nat)
    requires
        limit >= 2,
        limit % 2 == 0,
        2 * h >= limit,
        h < limit,
        e > 0,
        4 * small < pow2(e),
    ensures
        rounded(h * pow2(e) + small, limit) == h * pow2(e),
        h * pow2(e) >= small,
        rounded((h * pow2(e) - small) as nat, limit) == h * pow2(e),
{
    let u = pow2(e);
    lemma_pow2_pos(e);
    let top = h * u;
    assert(limit * u <= 2 * top && top <= (limit - 1) * u
        && (limit - 1) * u == limit * u - u && top >= u)
        by (nonlinear_arith)
        requires
            2 * h >= limit,
            h <= limit - 1,
            top == h * u,
            u > 0,
    ;
    lemma_excess_is(top + small, e, limit);
    vstd::arithmetic::div_mod::lemma_fundamental_div_mod_converse(
        (top + small) as int,
        u as int,
        h as int,
        small as int,
    );
    if small == 0 {
    } else if 2 * h > limit {
        assert(2 * top >= limit * u + 2 * u) by (nonlinear_arith)
            requires
                2 * h >= limit + 2,
                top == h * u,
                u > 0,
        ;
        lemma_excess_is((top - small) as nat, e, limit);
        assert(top - small == (h - 1) * u + (u - small)) by (nonlinear_arith)
            requires
                top == h * u,
        ;
        vstd::arithmetic::div_mod::lemma_fundamental_div_mod_converse(
            top - small,
            u as int,
            h - 1,
            u - small,
        );
    } else {
        let v = pow2((e - 1) as nat);
        lemma_pow2_unfold(e);
        lemma_pow2_pos((e - 1) as nat);
        assert(top == limit * v) by (nonlinear_arith)
            requires
                top == h * u,
                u == 2 * v,
                2 * h == limit,
        ;
        assert(top - small == (limit - 1) * v + (v - small)) by (nonlinear_arith)
            requires
                top == limit * v,
        ;
        if e == 1 {
            lemma2_to64();
            assert(small == 0);
        } else {
            assert(limit * v <= 2 * (top - small)) by (nonlinear_arith)
                requires
                    top == limit * v,
                    2 * small < v,
                    v > 0,
                    limit >= 2,
            ;
            lemma_excess_is((top - small) as nat, (e - 1) as nat, limit);
            vstd::arithmetic::div_mod::lemma_fundamental_div_mod_converse(
                top - small,
                v as int,
                limit - 1,
                v - small,
            );
        }
    }
}

/// Dividing with rounding does not go beyond a whole quotient.
pub proof fn lemma_div_nearest_below(a: int, b: int, c: int)
    requires
        0 <= a <= c * b,
        b > 0,
    ensures
        div_nearest_even(a, b) <= c,
{
    let q = a / b;
    let r = a % b;
    assert(a == b * q + r && 0 <= r < b) by (nonlinear_arith)
        requires
            q == a / b,
            r == a % b,
            b > 0,
    ;
    if r == 0 {
        assert(q <= c) by (nonlinear_arith)
            requires
                b * q <= c * b,
                b > 0,
        ;
    } else {
        assert(q + 1 <= c) by (nonlinear_arith)
            requires
                b * q + r <= c * b,
                r > 0,
                b > 0,
        ;
    }
}

/// Dividing with rounding is off by half at most.
pub proof fn lemma_div_nearest_off_by_half(a: int, b: int)
    requires
        0 <= a,
        b > 0,
    ensures
        -b <= 2 * (div_nearest_even(a, b) * b - a) <= b,
        div_nearest_even(a, b) >= 0,
{
    let q = a / b;
    let r = a % b;
    assert(a == b * q + r && 0 <= r < b && q >= 0) by (nonlinear_arith)
        requires
            q == a / b,
            r == a % b,
            b > 0,
            a >= 0,
    ;
    assert((q + 1) * b == b * q + b && q * b == b * q) by (nonlinear_arith);
}

/// Rounding does not go beyond a number with few enough significant bits.
pub proof fn lemma_rounded_below(a: nat, m: nat, e: nat, limit: nat)
    requires
        limit >= 2,
        limit % 2 == 0,
        m < limit,
        a <= m * pow2(e),
    ensures
        rounded(a, limit) <= m * pow2(e),
{
    let s = excess_bits(a, limit);
    lemma_excess_bounds(a, limit);
    lemma_pow2_pos(s);
    lemma_pow2_pos(e);
    lemma_div_nearest_off_by_half(a as int, pow2(s) as int);
    let unit = pow2(s) as int;
    let q = div_nearest_even(a as int, unit);
    assert(q * unit >= 0) by (nonlinear_arith)
        requires
            q >= 0,
            unit > 0,
    ;
    if s <= e {
        lemma_pow2_adds(s, (e - s) as nat);
        let c = m * pow2((e - s) as nat);
        assert(c * unit == m * pow2(e)) by (nonlinear_arith)
            requires
                c == m * pow2((e - s) as nat),
                pow2(e) == unit * pow2((e - s) as nat),
        ;
        lemma_div_nearest_below(a as int, unit, c as int);
        assert(q * unit <= c * unit) by (nonlinear_arith)
            requires
                q <= c,
                unit > 0,
        ;
    } else {
        lemma_pow2_adds((e + 1) as nat, (s - e - 1) as nat);
        lemma_pow2_unfold((e + 1) as nat);
        lemma_pow2_pos((s - e - 1) as nat);
        assert(pow2(s) >= 2 * pow2(e)) by (nonlinear_arith)
            requires
                pow2(s) == (2 * pow2(e)) * pow2((s - e - 1) as nat),
                pow2((s - e - 1) as nat) >= 1,
        ;
        assert(2 * a >= 2 * (limit * pow2(e))) by (nonlinear_arith)
            requires
                limit * pow2(s) <= 2 * a,
                pow2(s) >= 2 * pow2(e),
                limit >= 0,
        ;
        assert(m * pow2(e) < limit * pow2(e)) by (nonlinear_arith)
            requires
                m < limit,
                pow2(e) > 0,
        ;
    }
}

/// Rounding a magnitude below `limit` times a power of two changes it by half of
/// that power at most.
pub proof fn lemma_rounded_near(a: nat, e: nat, limit: nat)
    requires
        limit >= 2,
        limit % 2 == 0,
        a < limit * pow2(e),
    ensures
        -(pow2(e) as int) <= 2 * (rounded(a, limit) - a) <= pow2(e),
{
    let s = excess_bits(a, limit);
    lemma_excess_bounds(a, limit);
    lemma_pow2_pos(s);
    lemma_pow2_pos(e);
    lemma_div_nearest_off_by_half(a as int, pow2(s) as int);
    let q = div_nearest_even(a as int, pow2(s) as int);
    assert(q * pow2(s) >= 0) by (nonlinear_arith)
        requires
            q >= 0,
            pow2(s) > 0,
    ;
    if s > e {
        lemma_pow2_adds((e + 1) as nat, (s - e - 1) as nat);
        lemma_pow2_unfold((e + 1) as nat);
        lemma_pow2_pos((s - e - 1) as nat);
        assert(pow2(s) >= 2 * pow2(e)) by (nonlinear_arith)
            requires
                pow2(s) == (2 * pow2(e)) * pow2((s - e - 1) as nat),
                pow2((s - e - 1) as nat) >= 1,
        ;
        assert(2 * a >= 2 * (limit * pow2(e))) by (nonlinear_arith)
            requires
                limit * pow2(s) <= 2 * a,
                pow2(s) >= 2 * pow2(e),
                limit >= 0,
        ;
        assert(false);
    } else if s < e {
        lemma_pow2_strictly_increases(s, e);
    }
}

} // verus!
