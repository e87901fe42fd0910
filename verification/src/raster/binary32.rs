//! IEEE 754 binary32 arithmetic on integers, for the few operations that error
//! diffusion needs.
//!
//! A finite binary32 number is a whole multiple of 2^-149, so it is modelled
//! as that multiple: 1.0 is 2^149. Sums, differences and products by small
//! whole numbers are then exact integers, which are rounded to 24 significant
//! bits, to nearest with ties to even, as the standard has it. The range is
//! not limited upwards: nothing here comes near binary32's infinity.

use vstd::prelude::*;
#[allow(unused_imports)]
use crate::rounding::{
    div_nearest_even, excess_bits, lemma_div_nearest_bounds, lemma_excess_bounds,
    lemma_round_shifted, lemma_short_is_exact, lemma_small_is_absorbed, rounded,
};
#[allow(unused_imports)]
use vstd::arithmetic::power2::{
    lemma2_to64, lemma_pow2_adds, lemma_pow2_pos, lemma_pow2_strictly_increases, lemma_pow2_unfold,
    pow2,
};

verus! {

/// 2^24: numbers below it have at most 24 significant bits.
pub const SIGNIFICAND_LIMIT: u64 = 0x100_0000;

/// A magnitude rounded to 24 significant bits.
pub open spec fn round_magnitude(a: nat) -> nat {
    rounded(a, SIGNIFICAND_LIMIT as nat)
}

/// A number rounded to binary32.
pub open spec fn round(n: int) -> int {
    if n < 0 {
        -(round_magnitude((-n) as nat))
    } else {
        round_magnitude(n as nat) as int
    }
}

/// The whole number `n` as a multiple of 2^-149.
pub open spec fn whole(n: int) -> int {
    n * pow2(149)
}

pub open spec fn sum(a: int, b: int) -> int {
    round(a + b)
}

pub open spec fn difference(a: int, b: int) -> int {
    round(a - b)
}

/// The product with the whole number `k`.
pub open spec fn product(a: int, k: int) -> int {
    round(a * k)
}

/// The quotient by a power of two, which needs rounding only below 2^-126.
pub open spec fn scaled_down(a: int, divisor: int) -> int {
    if a < 0 {
        -div_nearest_even(-a, divisor)
    } else {
        div_nearest_even(a, divisor)
    }
}

/// A binary32 number as sign, significand and exponent.
#[derive(Clone, Copy, Debug)]
pub struct Binary32 {
    negative: bool,
    significand: u64,
    exponent: u64,
}

impl View for Binary32 {
    type V = int;

    closed spec fn view(&self) -> int {
        if self.negative {
            -(self.significand * pow2(self.exponent as nat))
        } else {
            (self.significand * pow2(self.exponent as nat)) as int
        }
    }
}

impl Binary32 {
    /// Whether the significand is as large as it can be.
    pub closed spec fn wf(&self) -> bool {
        &&& self.significand < SIGNIFICAND_LIMIT
        &&& self.exponent > 0 ==> 2 * self.significand >= SIGNIFICAND_LIMIT
    }

    /// The exponent, which bounds the magnitude.
    pub closed spec fn spec_exponent(&self) -> int {
        self.exponent as int
    }
}

/// A magnitude with a sign.
pub open spec fn signed(negative: bool, magnitude: nat) -> int {
    if negative {
        -(magnitude as int)
    } else {
        magnitude as int
    }
}

impl Binary32 {
    /// `±m * 2^e`, rounded.
    fn make(negative: bool, m: u64, e: u64) -> (r: Binary32)
        requires
            m < 0x8000_0000_0000_0000,
            e < 0x1000_0000_0000_0000,
        ensures
            r.wf(),
            r@ == round(signed(negative, m as nat * pow2(e as nat))),
            r.spec_exponent() <= e + 40,
            m < SIGNIFICAND_LIMIT ==> r.spec_exponent() <= e,
    {
        let ghost magnitude: nat = m as nat * pow2(e as nat);
        proof {
            lemma2_to64();
            lemma_pow2_pos(e as nat);
            assert(m > 0 ==> magnitude > 0) by (nonlinear_arith)
                requires
                    magnitude == m as nat * pow2(e as nat),
                    pow2(e as nat) > 0,
            ;
        }
        if m == 0 {
            proof {
                assert(0 * pow2(e as nat) == 0) by (nonlinear_arith);
                lemma_short_is_exact(0, 0, SIGNIFICAND_LIMIT as nat);
            }
            return Binary32 { negative: false, significand: 0, exponent: 0 };
        }
        if m < SIGNIFICAND_LIMIT {
            let mut significand: u64 = m;
            let mut exponent: u64 = e;
            while exponent > 0 && 2 * significand < SIGNIFICAND_LIMIT
                invariant
                    0 < significand < SIGNIFICAND_LIMIT,
                    exponent <= e,
                    significand * pow2(exponent as nat) == magnitude,
                decreases exponent,
            {
                proof {
                    lemma_pow2_unfold(exponent as nat);
                    assert((2 * significand) * pow2((exponent - 1) as nat) == magnitude)
                        by (nonlinear_arith)
                        requires
                            significand * pow2(exponent as nat) == magnitude,
                            pow2(exponent as nat) == 2 * pow2((exponent - 1) as nat),
                    ;
                }
                significand = 2 * significand;
                exponent = exponent - 1;
            }
            proof {
                lemma_short_is_exact(m as nat, e as nat, SIGNIFICAND_LIMIT as nat);
            }
            Binary32 { negative, significand, exponent }
        } else {
            let mut rest: u64 = m;
            let mut bits: u64 = 0;
            let mut unit: u64 = 1;
            while rest >= SIGNIFICAND_LIMIT
                invariant
                    excess_bits(m as nat, SIGNIFICAND_LIMIT as nat) == bits + excess_bits(rest as nat, SIGNIFICAND_LIMIT as nat),
                    unit == pow2(bits as nat),
                    bits <= 39,
                    unit * rest <= m,
                    m < 0x8000_0000_0000_0000,
                    0 < rest,
                decreases rest,
            {
                proof {
                    lemma_pow2_unfold((bits + 1) as nat);
                    assert(unit * SIGNIFICAND_LIMIT <= m) by (nonlinear_arith)
                        requires
                            unit * rest <= m,
                            rest >= SIGNIFICAND_LIMIT,
                    ;
                    assert((2 * unit) * (rest / 2) <= unit * rest) by (nonlinear_arith)
                        requires
                            unit >= 0,
                            rest >= 0,
                    ;
                    vstd::arithmetic::power2::lemma2_to64_rest();
                    if bits == 39 {
                        assert(false) by (nonlinear_arith)
                            requires
                                unit * SIGNIFICAND_LIMIT <= m,
                                unit == 0x80_0000_0000,
                                m < 0x8000_0000_0000_0000,
                        ;
                    }
                }
                rest = rest / 2;
                bits = bits + 1;
                unit = 2 * unit;
            }
            proof {
                lemma_pow2_pos(bits as nat);
            }
            let q: u64 = m / unit;
            let r: u64 = m % unit;
            let ghost exact = div_nearest_even(m as int, unit as int);
            proof {
                lemma_excess_bounds(m as nat, SIGNIFICAND_LIMIT as nat);
                lemma2_to64();
                assert(m == unit * q + r && r < unit) by (nonlinear_arith)
                    requires
                        q == m / unit,
                        r == m % unit,
                        unit > 0,
                ;
                assert(2 * q + 1 >= SIGNIFICAND_LIMIT && q < SIGNIFICAND_LIMIT) by (nonlinear_arith)
                    requires
                        m == unit * q + r,
                        r < unit,
                        SIGNIFICAND_LIMIT * unit <= 2 * m,
                        m < SIGNIFICAND_LIMIT * unit,
                        unit > 0,
                ;
                lemma_round_shifted(m as nat, e as nat, SIGNIFICAND_LIMIT as nat);
                lemma_pow2_adds(bits as nat, e as nat);
                assert((exact * unit) * pow2(e as nat) == exact * pow2((bits + e) as nat))
                    by (nonlinear_arith)
                    requires
                        pow2((bits + e) as nat) == unit * pow2(e as nat),
                ;
                lemma_div_nearest_bounds(m as int, unit as int);
                assert(exact * unit >= 0) by (nonlinear_arith)
                    requires
                        exact >= 0,
                        unit >= 0,
                ;
            }
            let up: bool = !(r < unit - r || (r == unit - r && q % 2 == 0));
            let rounded: u64 = if up {
                q + 1
            } else {
                q
            };
            assert(rounded == exact);
            if rounded == SIGNIFICAND_LIMIT {
                proof {
                    lemma_pow2_unfold((bits + e + 1) as nat);
                    assert(0x80_0000 * pow2((bits + e + 1) as nat) == SIGNIFICAND_LIMIT * pow2(
                        (bits + e) as nat,
                    )) by (nonlinear_arith)
                        requires
                            pow2((bits + e + 1) as nat) == 2 * pow2((bits + e) as nat),
                    ;
                }
                Binary32 { negative, significand: 0x80_0000, exponent: e + bits + 1 }
            } else {
                Binary32 { negative, significand: rounded, exponent: e + bits }
            }
        }
    }

    /// A whole number from 0 to 255.
    pub fn from_byte(v: u8) -> (r: Binary32)
        ensures
            r.wf(),
            r@ == whole(v as int),
            r.spec_exponent() <= 149,
    {
        proof {
            lemma_short_is_exact(v as nat, 149, SIGNIFICAND_LIMIT as nat);
            lemma_pow2_pos(149);
            assert(v as nat * pow2(149) == v * pow2(149));
            assert(v as nat * pow2(149) >= 0);
        }
        Binary32::make(false, v as u64, 149)
    }

    /// The sum of two numbers whose exponents differ by 38 at most.
    fn near_sum(hi: Binary32, lo: Binary32) -> (r: Binary32)
        requires
            hi.wf(),
            lo.wf(),
            lo.exponent <= hi.exponent <= lo.exponent + 38,
            hi.exponent < 0x0fff_ffff_ffff_ffff,
        ensures
            r.wf(),
            r@ == sum(hi@, lo@),
            r.spec_exponent() <= hi.exponent + 40,
    {
        let d: u64 = hi.exponent - lo.exponent;
        proof {
            vstd::arithmetic::power2::lemma2_to64_rest();
            lemma_pow2_pos(d as nat);
            lemma_pow2_pos(lo.exponent as nat);
            if d < 38 {
                lemma_pow2_strictly_increases(d as nat, 38);
            }
            assert(hi.significand * pow2(d as nat) <= 0xff_ffff * 0x40_0000_0000)
                by (nonlinear_arith)
                requires
                    hi.significand <= 0xff_ffff,
                    pow2(d as nat) <= 0x40_0000_0000,
            ;
            vstd::bits::lemma_u64_shl_is_mul(hi.significand, d);
            lemma_pow2_adds(d as nat, lo.exponent as nat);
            let p = pow2(lo.exponent as nat);
            assert((hi.significand * pow2(d as nat)) * p == hi.significand * pow2(
                hi.exponent as nat,
            )) by (nonlinear_arith)
                requires
                    pow2(hi.exponent as nat) == pow2(d as nat) * p,
            ;
        }
        let m: u64 = hi.significand << d;
        let n: u64 = lo.significand;
        let ghost p = pow2(lo.exponent as nat);
        assert(hi@ == signed(hi.negative, (m * p) as nat));
        assert(lo@ == signed(lo.negative, (n * p) as nat));
        if hi.negative == lo.negative {
            assert((m + n) * p == m * p + n * p) by (nonlinear_arith);
            Binary32::make(hi.negative, m + n, lo.exponent)
        } else if m >= n {
            assert((m - n) * p == m * p - n * p) by (nonlinear_arith);
            Binary32::make(hi.negative, m - n, lo.exponent)
        } else {
            assert((n - m) * p == n * p - m * p) by (nonlinear_arith);
            Binary32::make(lo.negative, n - m, lo.exponent)
        }
    }

    /// The sum of two numbers so far apart that the smaller one is lost.
    fn far_sum(hi: Binary32, lo: Binary32) -> (r: Binary32)
        requires
            hi.wf(),
            lo.wf(),
            hi.exponent > lo.exponent + 38,
        ensures
            r == hi,
            r@ == sum(hi@, lo@),
    {
        proof {
            let e = hi.exponent as nat;
            let f = lo.exponent as nat;
            let small = lo.significand as nat * pow2(f);
            let d = (e - f) as nat;
            vstd::arithmetic::power2::lemma2_to64_rest();
            lemma_pow2_pos(f);
            lemma_pow2_pos(e);
            if d > 39 {
                lemma_pow2_strictly_increases(39, d);
            }
            lemma_pow2_adds(d, f);
            assert(4 * small < pow2(e)) by (nonlinear_arith)
                requires
                    small == lo.significand as nat * pow2(f),
                    lo.significand < 0x100_0000,
                    pow2(f) > 0,
                    pow2(d) >= 0x80_0000_0000,
                    pow2(e) == pow2(d) * pow2(f),
            ;
            lemma_small_is_absorbed(hi.significand as nat, e, small, SIGNIFICAND_LIMIT as nat);
            let top = hi.significand as nat * pow2(e);
            assert(hi@ == signed(hi.negative, top));
            assert(lo@ == signed(lo.negative, small));
            assert(top >= pow2(e)) by (nonlinear_arith)
                requires
                    top == hi.significand as nat * pow2(e),
                    hi.significand > 0,
                    pow2(e) > 0,
            ;
            assert(top > small);
            if hi.negative == lo.negative {
                assert(hi@ + lo@ == signed(hi.negative, top + small));
            } else {
                assert(hi@ + lo@ == signed(hi.negative, (top - small) as nat));
            }
        }
        hi
    }

    /// The sum, rounded.
    pub fn plus(self, other: Binary32) -> (r: Binary32)
        requires
            self.wf(),
            other.wf(),
            self.spec_exponent() < 0x0fff_ffff_ffff_0000,
            other.spec_exponent() < 0x0fff_ffff_ffff_0000,
        ensures
            r.wf(),
            r@ == sum(self@, other@),
            r.spec_exponent() <= self.spec_exponent() + 40 || r.spec_exponent()
                <= other.spec_exponent() + 40,
    {
        if self.exponent >= other.exponent {
            if self.exponent - other.exponent <= 38 {
                Binary32::near_sum(self, other)
            } else {
                Binary32::far_sum(self, other)
            }
        } else {
            if other.exponent - self.exponent <= 38 {
                Binary32::near_sum(other, self)
            } else {
                Binary32::far_sum(other, self)
            }
        }
    }

    /// The difference, rounded.
    pub fn minus(self, other: Binary32) -> (r: Binary32)
        requires
            self.wf(),
            other.wf(),
            self.spec_exponent() < 0x0fff_ffff_ffff_0000,
            other.spec_exponent() < 0x0fff_ffff_ffff_0000,
        ensures
            r.wf(),
            r@ == difference(self@, other@),
            r.spec_exponent() <= self.spec_exponent() + 40 || r.spec_exponent()
                <= other.spec_exponent() + 40,
    {
        let opposite: Binary32 = Binary32 {
            negative: !other.negative,
            significand: other.significand,
            exponent: other.exponent,
        };
        assert(opposite@ == -other@);
        self.plus(opposite)
    }

    /// The product with a small whole number, rounded.
    pub fn times(self, k: u8) -> (r: Binary32)
        requires
            self.wf(),
            self.spec_exponent() < 0x0fff_ffff_ffff_0000,
        ensures
            r.wf(),
            r@ == product(self@, k as int),
            r.spec_exponent() <= self.spec_exponent() + 40,
    {
        proof {
            let p = pow2(self.exponent as nat);
            let s = self.significand;
            lemma_pow2_pos(self.exponent as nat);
            assert(0 <= s * k <= 0xff_ffff * 255) by (nonlinear_arith)
                requires
                    s <= 0xff_ffff,
                    k <= 255,
            ;
            assert((s * k) * p == (s * p) * k) by (nonlinear_arith);
            assert((-(s * p)) * k == -((s * p) * k)) by (nonlinear_arith);
            assert((s * k) * p >= 0) by (nonlinear_arith)
                requires
                    s * k >= 0,
                    p > 0,
            ;
            assert(((s * k) as u64) as nat * p == (s * k) * p);
        }
        Binary32::make(self.negative, self.significand * (k as u64), self.exponent)
    }

    /// The quotient by 2^`bits`, rounded.
    pub fn halved(self, bits: u64) -> (r: Binary32)
        requires
            self.wf(),
            0 < bits <= 4,
            self.spec_exponent() < 0x0fff_ffff_ffff_0000,
        ensures
            r.wf(),
            r@ == scaled_down(self@, pow2(bits as nat) as int),
            r.spec_exponent() <= self.spec_exponent(),
    {
        let ghost b = pow2(bits as nat);
        let ghost p = pow2(self.exponent as nat);
        let ghost a = self.significand as nat * p;
        proof {
            lemma2_to64();
            lemma_pow2_pos(bits as nat);
            lemma_pow2_pos(self.exponent as nat);
            assert(self@ == signed(self.negative, a));
            if a == 0 {
                assert(div_nearest_even(0, b as int) == 0) by {
                    vstd::arithmetic::div_mod::lemma_fundamental_div_mod_converse(
                        0,
                        b as int,
                        0,
                        0,
                    );
                }
            }
        }
        if self.exponent >= bits {
            proof {
                let down = pow2((self.exponent - bits) as nat);
                lemma_pow2_adds((self.exponent - bits) as nat, bits as nat);
                let q = self.significand as nat * down;
                assert(a == q * b) by (nonlinear_arith)
                    requires
                        a == self.significand as nat * p,
                        p == down * b,
                        q == self.significand as nat * down,
                ;
                vstd::arithmetic::div_mod::lemma_fundamental_div_mod_converse(
                    a as int,
                    b as int,
                    q as int,
                    0,
                );
                lemma_pow2_pos((self.exponent - bits) as nat);
                assert(self.exponent > 0);
                assert(a > 0) by (nonlinear_arith)
                    requires
                        a == self.significand as nat * p,
                        self.significand > 0,
                        p > 0,
                ;
            }
            Binary32 {
                negative: self.negative,
                significand: self.significand,
                exponent: self.exponent - bits,
            }
        } else {
            proof {
                lemma_pow2_strictly_increases(self.exponent as nat, bits as nat);
                assert(p <= 8);
                assert(a <= 0xff_ffff * 8) by (nonlinear_arith)
                    requires
                        a == self.significand as nat * p,
                        self.significand <= 0xff_ffff,
                        p <= 8,
                ;
                vstd::bits::lemma_u64_shl_is_mul(self.significand, self.exponent);
                vstd::bits::lemma_u64_shl_is_mul(1, bits);
                assert(1 * pow2(bits as nat) == pow2(bits as nat)) by (nonlinear_arith);
            }
            let n: u64 = self.significand << self.exponent;
            let unit: u64 = 1u64 << bits;
            assert(n == a && unit == b);
            let q: u64 = n / unit;
            let r: u64 = n % unit;
            let up: bool = !(2 * r < unit || (2 * r == unit && q % 2 == 0));
            let rounded: u64 = if up {
                q + 1
            } else {
                q
            };
            proof {
                lemma_pow2_unfold(bits as nat);
                if self.exponent < bits - 1 {
                    lemma_pow2_strictly_increases(self.exponent as nat, (bits - 1) as nat);
                }
                assert(2 * q <= self.significand) by (nonlinear_arith)
                    requires
                        q == n / unit,
                        n == self.significand * p,
                        unit >= 2 * p,
                        p > 0,
                ;
                lemma_short_is_exact(rounded as nat, 0, SIGNIFICAND_LIMIT as nat);
                assert(rounded as nat * 1 == rounded) by (nonlinear_arith);
                assert(rounded == div_nearest_even(a as int, b as int));
            }
            Binary32::make(self.negative, rounded, 0)
        }
    }

    /// Whether the number is below 128.
    pub fn is_below_128(self) -> (below: bool)
        requires
            self.wf(),
        ensures
            below == (self@ < whole(128)),
    {
        proof {
            let p = pow2(self.exponent as nat);
            let s = self.significand;
            lemma2_to64();
            lemma_pow2_pos(self.exponent as nat);
            lemma_pow2_pos(149);
            lemma_pow2_adds(133, 16);
            assert(128 * pow2(149) == 0x80_0000 * pow2(133)) by (nonlinear_arith)
                requires
                    pow2(149) == pow2(133) * 0x1_0000,
            ;
            assert(s * p >= 0) by (nonlinear_arith)
                requires
                    p > 0,
                    s >= 0,
            ;
            if self.exponent >= 133 {
                if self.exponent > 133 {
                    lemma_pow2_strictly_increases(133, self.exponent as nat);
                }
                assert(s * p >= 0x80_0000 * pow2(133)) by (nonlinear_arith)
                    requires
                        s >= 0x80_0000,
                        p >= pow2(133),
                        pow2(133) > 0,
                ;
            } else {
                lemma_pow2_unfold(133);
                if self.exponent < 132 {
                    lemma_pow2_strictly_increases(self.exponent as nat, 132);
                }
                assert(s * p < 0x80_0000 * pow2(133)) by (nonlinear_arith)
                    requires
                        s < 0x100_0000,
                        0 < p <= pow2(132),
                        pow2(133) == 2 * pow2(132),
                ;
            }
        }
        self.negative || self.exponent < 133
    }
}

} // verus!
