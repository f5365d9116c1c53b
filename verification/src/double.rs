//! IEEE-754 binary64 numbers held as bit patterns, with the few operations the
//! scoring rules need: clamping, ordering, sums, quotients and two-decimal text.
//!
//! A finite, non-negative double is a whole number of units of `2^-1074`
//! ([`magnitude`]). Every rounded operation is stated against the exact
//! mathematical result: the returned pattern is the nearest one, ties going to
//! the even pattern ([`rounds_to`]).

use vstd::arithmetic::div_mod::lemma_fundamental_div_mod;
use vstd::arithmetic::div_mod::lemma_fundamental_div_mod_converse;
use vstd::arithmetic::power2::lemma_pow2_adds;
use vstd::arithmetic::power2::lemma_pow2_pos;
use vstd::arithmetic::power2::lemma_pow2_strictly_increases;
use vstd::arithmetic::power2::lemma_pow2_unfold;
use vstd::arithmetic::power2::pow2;
use crate::numeral::push_scaled;
use crate::text::decimal;
use crate::text::digit;
use crate::text::digit_char;
use crate::text::push_decimal;
use vstd::prelude::*;

verus! {

/// `2^52`: the implicit leading bit of a normal significand.
pub const IMPLICIT_BIT: u64 = 0x10_0000_0000_0000;

/// `2^63`: the sign bit, alone the pattern of `-0.0`.
pub const SIGN_BIT: u64 = 0x8000_0000_0000_0000;

/// The pattern of positive infinity.
pub const INFINITY_BITS: u64 = 0x7FF0_0000_0000_0000;

/// The pattern of `1.0`.
pub const ONE_BITS: u64 = 0x3FF0_0000_0000_0000;

/// The value of the non-negative pattern `bits`, counted in units of `2^-1074`.
/// The formula carries on past the largest finite pattern, which gives the
/// rounding rule its overflow threshold.
pub open spec fn magnitude(bits: nat) -> nat {
    let exponent = bits / (IMPLICIT_BIT as nat);
    let fraction = bits % (IMPLICIT_BIT as nat);
    if exponent == 0 {
        fraction
    } else {
        (IMPLICIT_BIT as nat + fraction) * pow2((exponent - 1) as nat)
    }
}

/// One, counted in units of `2^-1074`.
pub open spec fn one_unit() -> nat {
    pow2(1074)
}

/// Whether `bits` is the pattern nearest to `num / den` units, a tie going to
/// the even pattern.
pub open spec fn rounds_to(num: nat, den: nat, bits: nat) -> bool {
    &&& bits > 0 ==> {
        let below = den * (magnitude((bits - 1) as nat) + magnitude(bits));
        below < 2 * num || (below == 2 * num && bits % 2 == 0)
    }
    &&& {
        let above = den * (magnitude(bits) + magnitude(bits + 1));
        2 * num < above || (above == 2 * num && bits % 2 == 0)
    }
}

/// The pattern nearest to `num / den` units.
pub open spec fn nearest(num: nat, den: nat) -> nat {
    choose|bits: nat| rounds_to(num, den, bits)
}

/// The finite result `bits`, or infinity where the rounded exponent is too large.
pub open spec fn overflowed(bits: nat) -> nat {
    if bits >= INFINITY_BITS {
        INFINITY_BITS as nat
    } else {
        bits
    }
}

/// A pattern split into exponent and fraction.
proof fn lemma_split(bits: nat, exponent: nat, fraction: nat)
    requires
        bits == exponent * (IMPLICIT_BIT as nat) + fraction,
        fraction < IMPLICIT_BIT,
    ensures
        bits / (IMPLICIT_BIT as nat) == exponent,
        bits % (IMPLICIT_BIT as nat) == fraction,
{
    lemma_fundamental_div_mod_converse(
        bits as int,
        IMPLICIT_BIT as int,
        exponent as int,
        fraction as int,
    );
}

/// The pattern of `significand * 2^shift` units.
pub proof fn lemma_encode(significand: nat, shift: nat)
    requires
        significand <= 2 * IMPLICIT_BIT,
        IMPLICIT_BIT <= significand || shift == 0,
    ensures
        magnitude(shift * (IMPLICIT_BIT as nat) + significand) == significand * pow2(shift),
{
    let h = IMPLICIT_BIT as nat;
    let bits = shift * h + significand;
    lemma_pow2_unfold(shift + 1);
    assert(pow2(0) == 1) by {
        vstd::arithmetic::power2::lemma2_to64();
    }
    if significand < h {
        lemma_split(bits, 0, significand);
        assert(significand * pow2(0) == significand);
    } else if significand < 2 * h {
        assert(bits == (shift + 1) * h + (significand - h)) by (nonlinear_arith)
            requires
                bits == shift * h + significand,
                significand >= h,
        ;
        lemma_split(bits, shift + 1, (significand - h) as nat);
    } else {
        assert(bits == (shift + 2) * h) by (nonlinear_arith)
            requires
                bits == shift * h + significand,
                significand == 2 * h,
        ;
        lemma_split(bits, shift + 2, 0);
        assert(h * pow2(shift + 1) == significand * pow2(shift)) by (nonlinear_arith)
            requires
                pow2(shift + 1) == 2 * pow2(shift),
                significand == 2 * h,
        ;
    }
}

/// Every pattern is the encoding of its significand and shift.
proof fn lemma_decode(bits: nat) -> (r: (nat, nat))
    ensures
        r.0 < 2 * IMPLICIT_BIT,
        IMPLICIT_BIT <= r.0 || r.1 == 0,
        bits == r.1 * (IMPLICIT_BIT as nat) + r.0,
        magnitude(bits) == r.0 * pow2(r.1),
        magnitude(bits + 1) == (r.0 + 1) * pow2(r.1),
{
    let h = IMPLICIT_BIT as nat;
    let exponent = bits / h;
    let fraction = bits % h;
    lemma_fundamental_div_mod(bits as int, h as int);
    let r: (nat, nat) = if exponent == 0 {
        (fraction, 0)
    } else {
        (h + fraction, (exponent - 1) as nat)
    };
    assert(bits == r.1 * h + r.0) by (nonlinear_arith)
        requires
            bits == h * exponent + fraction,
            exponent == 0 ==> r == (fraction, 0nat),
            exponent > 0 ==> r.0 == h + fraction && r.1 + 1 == exponent,
    ;
    lemma_encode(r.0, r.1);
    lemma_encode(r.0 + 1, r.1);
    r
}

/// A larger pattern stands for a larger number.
pub proof fn lemma_magnitude_monotone(a: nat, b: nat)
    requires
        a < b,
    ensures
        magnitude(a) < magnitude(b),
    decreases b - a,
{
    let r = lemma_decode((b - 1) as nat);
    lemma_pow2_pos(r.1);
    assert(r.0 * pow2(r.1) < (r.0 + 1) * pow2(r.1)) by (nonlinear_arith)
        requires
            pow2(r.1) > 0,
    ;
    if a + 1 < b {
        lemma_magnitude_monotone(a, (b - 1) as nat);
    }
}

/// No two patterns are nearest to the same number.
pub proof fn lemma_rounding_unique(num: nat, den: nat, a: nat, b: nat)
    requires
        den > 0,
        rounds_to(num, den, a),
        rounds_to(num, den, b),
    ensures
        a == b,
{
    lemma_rounding_order(num, den, a, b);
    lemma_rounding_order(num, den, b, a);
}

proof fn lemma_rounding_order(num: nat, den: nat, a: nat, b: nat)
    requires
        den > 0,
        rounds_to(num, den, a),
        rounds_to(num, den, b),
    ensures
        b <= a,
{
    let upper_a = magnitude(a) + magnitude(a + 1);
    let lower_b = magnitude((b - 1) as nat) + magnitude(b);
    if a + 1 < b {
        lemma_magnitude_monotone(a, (b - 1) as nat);
        lemma_magnitude_monotone(a + 1, b);
        assert(den * upper_a < den * lower_b) by (nonlinear_arith)
            requires
                upper_a < lower_b,
                den > 0,
        ;
    } else if a < b {
        assert(b == a + 1);
    }
}

/// A rounded result is `nearest`.
pub proof fn lemma_nearest(num: nat, den: nat, bits: nat)
    requires
        den > 0,
        rounds_to(num, den, bits),
    ensures
        nearest(num, den) == bits,
{
    lemma_rounding_unique(num, den, bits, nearest(num, den));
}

/// Rounding never passes a representable number.
pub proof fn lemma_rounding_bounded(num: nat, den: nat, bits: nat, bound: nat)
    requires
        den > 0,
        rounds_to(num, den, bits),
        num <= den * magnitude(bound),
    ensures
        bits <= bound,
{
    if bits > bound {
        let below = magnitude((bits - 1) as nat) + magnitude(bits);
        lemma_magnitude_monotone((bits - 1) as nat, bits);
        if bound + 1 < bits {
            lemma_magnitude_monotone(bound, (bits - 1) as nat);
        }
        assert(den * below > 2 * num) by (nonlinear_arith)
            requires
                below > 2 * magnitude(bound),
                num <= den * magnitude(bound),
                den > 0,
        ;
    }
}

/// A representable number rounds to itself.
pub proof fn lemma_rounding_exact(den: nat, bits: nat)
    requires
        den > 0,
    ensures
        rounds_to(den * magnitude(bits), den, bits),
{
    let m = magnitude(bits);
    let above = m + magnitude(bits + 1);
    lemma_magnitude_monotone(bits, bits + 1);
    assert(2 * (den * m) < den * above) by (nonlinear_arith)
        requires
            above > 2 * m,
            den > 0,
    ;
    if bits > 0 {
        let below = magnitude((bits - 1) as nat) + m;
        lemma_magnitude_monotone((bits - 1) as nat, bits);
        assert(den * below < 2 * (den * m)) by (nonlinear_arith)
            requires
                below < 2 * m,
                den > 0,
        ;
    }
}

/// Rounding at a known position: `n` is the significand below `num / den` with
/// weight `2^shift`, and the discarded part decides.
proof fn lemma_round_at(num: nat, den: nat, n: nat, shift: nat, up: bool)
    requires
        den > 0,
        n < 2 * IMPLICIT_BIT,
        IMPLICIT_BIT <= n || shift == 0,
        den * (n * pow2(shift)) <= num < den * ((n + 1) * pow2(shift)),
        up ==> (2 * num > den * ((2 * n + 1) * pow2(shift)) || (2 * num == den * ((2 * n + 1)
            * pow2(shift)) && n % 2 == 1)),
        !up ==> (2 * num < den * ((2 * n + 1) * pow2(shift)) || (2 * num == den * ((2 * n + 1)
            * pow2(shift)) && n % 2 == 0)),
    ensures
        rounds_to(num, den, shift * (IMPLICIT_BIT as nat) + n + if up { 1nat } else { 0nat }),
{
    let h = IMPLICIT_BIT as nat;
    let p = pow2(shift);
    let low = shift * h + n;
    lemma_encode(n, shift);
    lemma_encode(n + 1, shift);
    assert(n * p + (n + 1) * p == (2 * n + 1) * p) by (nonlinear_arith);
    assert(low % 2 == n % 2) by (nonlinear_arith)
        requires
            low == shift * h + n,
            h == 2 * 0x8_0000_0000_0000nat,
    ;
    if up {
        let bits = low + 1;
        assert(magnitude((bits - 1) as nat) + magnitude(bits) == (2 * n + 1) * p);
        lemma_magnitude_monotone(bits, bits + 1);
        let above = magnitude(bits) + magnitude(bits + 1);
        assert(2 * num < den * above) by (nonlinear_arith)
            requires
                num < den * magnitude(bits),
                above > 2 * magnitude(bits),
        ;
    } else {
        let bits = low;
        assert(magnitude(bits) + magnitude(bits + 1) == (2 * n + 1) * p);
        if bits > 0 {
            lemma_magnitude_monotone((bits - 1) as nat, bits);
            let below = magnitude((bits - 1) as nat) + magnitude(bits);
            assert(2 * num > den * below) by (nonlinear_arith)
                requires
                    num >= den * magnitude(bits),
                    below < 2 * magnitude(bits),
                    den > 0,
            ;
        }
    }
}

/// A double, held as its bit pattern.
#[derive(Clone, Copy, Debug)]
pub struct Double {
    /// The IEEE-754 binary64 pattern.
    pub bits: u64,
}

/// Two doubles are equal as numbers: the two zeros are, what is not a number
/// equals nothing.
impl PartialEq for Double {
    fn eq(&self, other: &Double) -> (r: bool) {
        self.equals(*other)
    }
}

impl vstd::std_specs::cmp::PartialEqSpecImpl for Double {
    open spec fn obeys_eq_spec() -> bool {
        true
    }

    open spec fn eq_spec(&self, other: &Double) -> bool {
        self.equals_spec(*other)
    }
}

/// The position of a pattern in the numeric order; the two zeros share one.
pub open spec fn ordinal(bits: u64) -> int {
    if bits < SIGN_BIT {
        bits as int
    } else {
        SIGN_BIT - bits
    }
}

impl Double {
    /// Whether the pattern is not a number.
    pub open spec fn is_nan_spec(self) -> bool {
        ordinal(self.bits) > INFINITY_BITS || ordinal(self.bits) < -INFINITY_BITS
    }

    /// Whether two doubles are equal as numbers.
    pub open spec fn equals_spec(self, other: Double) -> bool {
        !self.is_nan_spec() && ordinal(self.bits) == ordinal(other.bits)
    }

    /// Whether the double is a finite number, zero or above.
    pub open spec fn is_natural(self) -> bool {
        0 <= ordinal(self.bits) < INFINITY_BITS
    }

    /// The numeric order: no pattern that is not a number takes part in it.
    pub open spec fn less_spec(self, other: Double) -> bool {
        &&& !self.is_nan_spec()
        &&& !other.is_nan_spec()
        &&& ordinal(self.bits) < ordinal(other.bits)
    }

    /// Whether the double lies in `0.0..=1.0`.
    pub open spec fn in_unit(self) -> bool {
        0 <= ordinal(self.bits) <= ONE_BITS
    }

    /// The value of a natural double, in units of `2^-1074`.
    pub open spec fn value(self) -> nat
        recommends
            self.is_natural(),
    {
        magnitude(ordinal(self.bits) as nat)
    }

    /// The rounded sum of two natural doubles.
    pub open spec fn sum_spec(self, other: Double) -> Double {
        Double { bits: overflowed(nearest(self.value() + other.value(), 1)) as u64 }
    }

    /// The rounded product of a natural double and an integer.
    pub open spec fn scaled_spec(self, factor: nat) -> Double {
        Double { bits: overflowed(nearest(self.value() * factor, 1)) as u64 }
    }

    /// The rounded quotient of two natural doubles.
    pub open spec fn quotient_spec(self, other: Double) -> Double {
        Double { bits: overflowed(nearest(self.value() * one_unit(), other.value())) as u64 }
    }

    /// The double with the given pattern.
    pub fn from_bits(bits: u64) -> (d: Double)
        ensures
            d.bits == bits,
    {
        Double { bits }
    }

    /// The pattern of the double.
    pub fn to_bits(self) -> (bits: u64)
        ensures
            bits == self.bits,
    {
        self.bits
    }

    /// Whether the double is not a number.
    pub fn is_nan(self) -> (r: bool)
        ensures
            r == self.is_nan_spec(),
    {
        if self.bits < SIGN_BIT {
            self.bits > INFINITY_BITS
        } else {
            self.bits - SIGN_BIT > INFINITY_BITS
        }
    }

    /// Whether two doubles are equal as numbers: the two zeros are, what is not a
    /// number equals nothing.
    pub fn equals(self, other: Double) -> (r: bool)
        ensures
            r == self.equals_spec(other),
    {
        let a: u64 = if self.bits == SIGN_BIT {
            0
        } else {
            self.bits
        };
        let b: u64 = if other.bits == SIGN_BIT {
            0
        } else {
            other.bits
        };
        assert(ordinal(a) == ordinal(self.bits));
        assert(ordinal(b) == ordinal(other.bits));
        !self.is_nan() && a == b
    }

    /// Whether `self < other` in the numeric order.
    pub fn less(self, other: Double) -> (r: bool)
        ensures
            r == self.less_spec(other),
    {
        if self.is_nan() || other.is_nan() {
            return false;
        }
        if self.bits < SIGN_BIT {
            other.bits < SIGN_BIT && self.bits < other.bits
        } else if other.bits < SIGN_BIT {
            self.bits > SIGN_BIT || other.bits > 0
        } else {
            self.bits > other.bits
        }
    }

    /// The double clamped into `0.0..=1.0`; what is not a number becomes `0.0`.
    pub fn clamp_unit(self) -> (r: Double)
        ensures
            r == self.clamp_unit_spec(),
            r.in_unit(),
    {
        if self.is_nan() {
            Double { bits: 0 }
        } else if self.bits > SIGN_BIT {
            Double { bits: 0 }
        } else if self.bits < SIGN_BIT && self.bits > ONE_BITS {
            Double { bits: ONE_BITS }
        } else {
            self
        }
    }

    /// What [`Double::clamp_unit`] returns.
    pub open spec fn clamp_unit_spec(self) -> Double {
        if self.is_nan_spec() || ordinal(self.bits) < 0 {
            Double { bits: 0 }
        } else if ordinal(self.bits) > ONE_BITS {
            Double { bits: ONE_BITS }
        } else {
            self
        }
    }

    /// Splits a natural double into significand and shift.
    fn unpack(self) -> (r: (u64, u64))
        requires
            self.is_natural(),
        ensures
            r.0 < 2 * IMPLICIT_BIT,
            IMPLICIT_BIT <= r.0 || r.1 == 0,
            r.1 <= 2045,
            self.value() == r.0 * pow2(r.1 as nat),
            ordinal(self.bits) == r.1 * IMPLICIT_BIT + r.0,
    {
        let bits: u64 = if self.bits == SIGN_BIT { 0 } else { self.bits };
        let exponent: u64 = bits / IMPLICIT_BIT;
        let fraction: u64 = bits % IMPLICIT_BIT;
        let r: (u64, u64) = if exponent == 0 {
            (fraction, 0)
        } else {
            (IMPLICIT_BIT + fraction, exponent - 1)
        };
        proof {
            lemma_fundamental_div_mod(bits as int, IMPLICIT_BIT as int);
            assert(r.1 * IMPLICIT_BIT + r.0 == bits) by (nonlinear_arith)
                requires
                    bits == IMPLICIT_BIT * exponent + fraction,
                    exponent == 0 ==> r == (fraction, 0u64),
                    exponent > 0 ==> r.0 == IMPLICIT_BIT + fraction && r.1 + 1 == exponent,
            ;
            lemma_encode(r.0 as nat, r.1 as nat);
            assert(exponent < 2047) by (nonlinear_arith)
                requires
                    bits < INFINITY_BITS,
                    bits >= IMPLICIT_BIT * exponent,
                    INFINITY_BITS == 2047 * IMPLICIT_BIT,
            ;
        }
        r
    }

    /// The sum, rounded to nearest.
    pub fn plus(self, other: Double) -> (r: Double)
        requires
            self.is_natural(),
            other.is_natural(),
        ensures
            r == self.sum_spec(other),
            0 <= ordinal(r.bits) <= INFINITY_BITS,
    {
        let a: (u64, u64) = self.unpack();
        let b: (u64, u64) = other.unpack();
        let (big, small): ((u64, u64), (u64, u64)) = if a.1 >= b.1 {
            (a, b)
        } else {
            (b, a)
        };
        let bits: u64 = sum_unpacked(big, small);
        proof {
            lemma_nearest(self.value() + other.value(), 1, bits as nat);
        }
        Double { bits: if bits >= INFINITY_BITS { INFINITY_BITS } else { bits } }
    }

    /// The product with an integer, rounded to nearest.
    pub fn times(self, factor: u64) -> (r: Double)
        requires
            self.is_natural(),
        ensures
            r == self.scaled_spec(factor as nat),
            0 <= ordinal(r.bits) <= INFINITY_BITS,
    {
        let (significand, shift): (u64, u64) = self.unpack();
        let product: u128 = product_wide(significand, factor);
        let bits: u64 = if product == 0 {
            proof {
                assert(product * pow2(shift as nat) == 0) by (nonlinear_arith)
                    requires
                        product == 0,
                ;
                assert(magnitude(0) == 0 && magnitude(1) == 1) by {
                    lemma_split(0, 0, 0);
                    lemma_split(1, 0, 1);
                }
            }
            0
        } else {
            proof {
                assert(product >= IMPLICIT_BIT || shift == 0) by (nonlinear_arith)
                    requires
                        product == significand * factor,
                        product > 0,
                        significand >= IMPLICIT_BIT || shift == 0,
                ;
            }
            round_scaled(product, shift)
        };
        proof {
            assert(self.value() * factor == product * pow2(shift as nat)) by (nonlinear_arith)
                requires
                    self.value() == significand * pow2(shift as nat),
                    product == significand * factor,
            ;
            lemma_nearest(self.value() * (factor as nat), 1, bits as nat);
        }
        Double { bits: if bits >= INFINITY_BITS { INFINITY_BITS } else { bits } }
    }

    /// The quotient, rounded to nearest.
    pub fn over(self, other: Double) -> (r: Double)
        requires
            self.is_natural(),
            other.is_natural(),
            other.value() > 0,
        ensures
            r == self.quotient_spec(other),
            0 <= ordinal(r.bits) <= INFINITY_BITS,
    {
        let a: (u64, u64) = self.unpack();
        let b: (u64, u64) = other.unpack();
        proof {
            assert(b.0 > 0) by (nonlinear_arith)
                requires
                    b.0 * pow2(b.1 as nat) > 0,
            ;
        }
        let bits: u64 = quotient_unpacked(a, b);
        proof {
            lemma_nearest(self.value() * one_unit(), other.value(), bits as nat);
        }
        Double { bits: if bits >= INFINITY_BITS { INFINITY_BITS } else { bits } }
    }
}

/// `a * b`, without loss.
fn product_wide(a: u64, b: u64) -> (r: u128)
    requires
        a < 2 * IMPLICIT_BIT,
    ensures
        r == a * b,
        r < 0x20_0000_0000_0000_0000_0000_0000_0000,
{
    proof {
        assert(a * b < 0x20_0000_0000_0000_0000_0000_0000_0000) by (nonlinear_arith)
            requires
                a < 0x20_0000_0000_0000,
                b < 0x1_0000_0000_0000_0000,
        ;
    }
    (a as u128) * (b as u128)
}

/// Rounds `m * 2^shift` units.
fn round_scaled(m: u128, shift: u64) -> (bits: u64)
    requires
        0 < m < 0x40_0000_0000_0000_0000_0000_0000_0000,
        m >= IMPLICIT_BIT || shift == 0,
        shift <= 2045,
    ensures
        rounds_to((m * pow2(shift as nat)) as nat, 1, bits as nat),
{
    let mut dropped: u64 = 0;
    let mut weight: u128 = 1;
    proof {
        vstd::arithmetic::power2::lemma2_to64();
    }
    while m / weight >= 2 * (IMPLICIT_BIT as u128)
        invariant
            0 < m < 0x40_0000_0000_0000_0000_0000_0000_0000,
            weight == pow2(dropped as nat),
            1 <= weight <= m,
            dropped <= 66,
            dropped > 0 ==> m / weight >= IMPLICIT_BIT,
        decreases m / weight,
    {
        proof {
            lemma_fundamental_div_mod(m as int, weight as int);
            assert(2 * weight <= m && weight < 0x2_0000_0000_0000_0000) by (nonlinear_arith)
                requires
                    m >= weight * (m / weight),
                    m / weight >= 0x20_0000_0000_0000,
                    m < 0x40_0000_0000_0000_0000_0000_0000_0000,
            ;
            lemma_pow2_unfold((dropped + 1) as nat);
            lemma_pow2_unfold(65);
            vstd::arithmetic::power2::lemma2_to64();
            lemma_pow2_bound(dropped as nat, 65);
            let q = m as int / weight as int;
            let half = m as int / (2 * weight as int);
            lemma_fundamental_div_mod(m as int, 2 * weight as int);
            assert(half >= 0x10_0000_0000_0000 && half < q) by (nonlinear_arith)
                requires
                    m == weight * q + m as int % weight as int,
                    m == (2 * weight) * half + m as int % (2 * weight as int),
                    0 <= m as int % weight as int,
                    0 <= m as int % (2 * weight as int) < 2 * weight,
                    q >= 0x20_0000_0000_0000,
                    weight > 0,
            ;
        }
        weight = weight * 2;
        dropped = dropped + 1;
    }
    let n: u128 = m / weight;
    let rest: u128 = m % weight;
    let up: bool = 2 * rest > weight || (2 * rest == weight && n % 2 == 1);
    proof {
        let total = (shift + dropped) as nat;
        lemma_fundamental_div_mod(m as int, weight as int);
        lemma_pow2_adds(shift as nat, dropped as nat);
        lemma_pow2_pos(shift as nat);
        let s = pow2(shift as nat);
        let w = weight as nat;
        let num = (m * s) as nat;
        assert(pow2(total) == s * w);
        assert(1 * (n * pow2(total)) <= num < 1 * ((n + 1) * pow2(total))) by (nonlinear_arith)
            requires
                m == w * n + rest,
                0 <= rest < w,
                num == m * s,
                s > 0,
                pow2(total) == s * w,
        ;
        let middle = (1 * ((2 * n + 1) * pow2(total))) as nat;
        assert(2 * num - middle == s * (2 * rest - w)) by (nonlinear_arith)
            requires
                m == w * n + rest,
                num == m * s,
                pow2(total) == s * w,
                middle == (2 * n + 1) * pow2(total),
        ;
        assert((2 * rest > w ==> 2 * num > middle) && (2 * rest < w ==> 2 * num < middle) && (2
            * rest == w ==> 2 * num == middle)) by (nonlinear_arith)
            requires
                2 * num - middle == s * (2 * rest - w),
                s > 0,
        ;
        lemma_round_at(num, 1, n as nat, total, up);
    }
    let base: u64 = (shift + dropped) * IMPLICIT_BIT + (n as u64);
    if up {
        base + 1
    } else {
        base
    }
}

/// A power of two below a bound has its exponent below the bound's.
proof fn lemma_pow2_bound(e: nat, limit: nat)
    requires
        pow2(e) <= pow2(limit),
    ensures
        e <= limit,
{
    if limit < e {
        lemma_pow2_strictly_increases(limit, e);
    }
}

/// A power of two, computed.
fn power(e: u64) -> (r: u128)
    requires
        e <= 120,
    ensures
        r == pow2(e as nat),
{
    let mut r: u128 = 1;
    let mut i: u64 = 0;
    proof {
        vstd::arithmetic::power2::lemma2_to64();
        lemma_pow2_120();
    }
    while i < e
        invariant
            i <= e <= 120,
            r == pow2(i as nat),
            pow2(120) == 0x100_0000_0000_0000_0000_0000_0000_0000,
        decreases e - i,
    {
        proof {
            lemma_pow2_unfold((i + 1) as nat);
            if i + 1 < 120 {
                lemma_pow2_strictly_increases((i + 1) as nat, 120);
            }
        }
        r = r * 2;
        i = i + 1;
    }
    r
}

proof fn lemma_pow2_120()
    ensures
        pow2(120) == 0x100_0000_0000_0000_0000_0000_0000_0000,
{
    lemma_pow2_60();
    lemma_pow2_adds(60, 60);
}

proof fn lemma_pow2_60()
    ensures
        pow2(60) == 0x1000_0000_0000_0000,
        pow2(0) == 1,
{
    vstd::arithmetic::power2::lemma2_to64();
    vstd::arithmetic::power2::lemma2_to64_rest();
}

/// The rounded sum of two split doubles, the first with the larger shift.
fn sum_unpacked(a: (u64, u64), b: (u64, u64)) -> (bits: u64)
    requires
        a.0 < 2 * IMPLICIT_BIT,
        IMPLICIT_BIT <= a.0 || a.1 == 0,
        b.0 < 2 * IMPLICIT_BIT,
        IMPLICIT_BIT <= b.0 || b.1 == 0,
        b.1 <= a.1 <= 2045,
    ensures
        rounds_to(a.0 as nat * pow2(a.1 as nat) + b.0 as nat * pow2(b.1 as nat), 1, bits as nat),
{
    let gap: u64 = a.1 - b.1;
    let ghost pa = pow2(a.1 as nat);
    let ghost pb = pow2(b.1 as nat);
    let ghost num = a.0 as nat * pa + b.0 as nat * pb;
    proof {
        lemma_pow2_pos(a.1 as nat);
        lemma_pow2_pos(b.1 as nat);
        lemma_pow2_pos(gap as nat);
        lemma_pow2_adds(gap as nat, b.1 as nat);
    }
    if gap > 60 {
        proof {
            lemma_pow2_60();
            lemma_pow2_strictly_increases(60, gap as nat);
            let g = pow2(gap as nat);
            assert(2 * (b.0 * pb) < pa) by (nonlinear_arith)
                requires
                    b.0 < 0x20_0000_0000_0000,
                    g > 0x1000_0000_0000_0000,
                    pa == g * pb,
                    pb > 0,
            ;
            let n = a.0 as nat;
            assert(1 * (n * pa) <= num < 1 * ((n + 1) * pa)) by (nonlinear_arith)
                requires
                    num == n * pa + b.0 as nat * pb,
                    2 * (b.0 as nat * pb) < pa,
            ;
            assert(2 * num < 1 * ((2 * n + 1) * pa)) by (nonlinear_arith)
                requires
                    num == n * pa + b.0 as nat * pb,
                    2 * (b.0 as nat * pb) < pa,
            ;
            lemma_round_at(num, 1, n, a.1 as nat, false);
        }
        a.1 * IMPLICIT_BIT + a.0
    } else {
        let g: u128 = power(gap);
        proof {
            lemma_pow2_60();
            if gap < 60 {
                lemma_pow2_strictly_increases(gap as nat, 60);
            }
            assert(a.0 * g <= 0x1F_FFFF_FFFF_FFFF * 0x1000_0000_0000_0000) by (nonlinear_arith)
                requires
                    a.0 <= 0x1F_FFFF_FFFF_FFFF,
                    g <= 0x1000_0000_0000_0000,
            ;
        }
        let m: u128 = (a.0 as u128) * g + (b.0 as u128);
        if m == 0 {
            proof {
                assert(a.0 == 0) by (nonlinear_arith)
                    requires
                        a.0 * g + b.0 == 0,
                        g > 0,
                ;
                assert(num == 0) by (nonlinear_arith)
                    requires
                        num == a.0 as nat * pa + b.0 as nat * pb,
                        a.0 == 0,
                        b.0 == 0,
                ;
                assert(magnitude(0) == 0 && magnitude(1) == 1) by {
                    lemma_split(0, 0, 0);
                    lemma_split(1, 0, 1);
                }
            }
            0
        } else {
            proof {
                assert(num == m * pb) by (nonlinear_arith)
                    requires
                        num == a.0 as nat * pa + b.0 as nat * pb,
                        m == a.0 * g + b.0,
                        pa == g * pb,
                ;
                assert(m >= b.0) by (nonlinear_arith)
                    requires
                        m == a.0 * g + b.0,
                ;
            }
            round_scaled(m, b.1)
        }
    }
}

/// The rounded quotient of two split doubles.
fn quotient_unpacked(a: (u64, u64), b: (u64, u64)) -> (bits: u64)
    requires
        a.0 < 2 * IMPLICIT_BIT,
        0 < b.0 < 2 * IMPLICIT_BIT,
        a.1 <= 2045,
        b.1 <= 2045,
    ensures
        rounds_to(
            a.0 as nat * pow2(a.1 as nat) * one_unit(),
            b.0 as nat * pow2(b.1 as nat),
            bits as nat,
        ),
{
    let ghost num = a.0 as nat * pow2(a.1 as nat) * one_unit();
    let ghost den = b.0 as nat * pow2(b.1 as nat);
    proof {
        lemma_pow2_pos(a.1 as nat);
        lemma_pow2_pos(b.1 as nat);
        lemma_pow2_pos(1074);
        lemma_pow2_adds(a.1 as nat, 1074);
        assert(num == a.0 * pow2((a.1 + 1074) as nat)) by (nonlinear_arith)
            requires
                num == a.0 as nat * pow2(a.1 as nat) * pow2(1074),
                pow2((a.1 + 1074) as nat) == pow2(a.1 as nat) * pow2(1074),
        ;
        assert(den > 0) by (nonlinear_arith)
            requires
                den == b.0 as nat * pow2(b.1 as nat),
                b.0 > 0,
                pow2(b.1 as nat) > 0,
        ;
    }
    if b.1 > a.1 + 1074 + 60 {
        // The quotient is below half a unit.
        proof {
            let gap = (b.1 - a.1 - 1074) as nat;
            let base = pow2((a.1 + 1074) as nat);
            lemma_pow2_adds(gap, (a.1 + 1074) as nat);
            lemma_pow2_60();
            lemma_pow2_strictly_increases(60, gap);
            lemma_pow2_pos((a.1 + 1074) as nat);
            let g = pow2(gap);
            assert(2 * num < den) by (nonlinear_arith)
                requires
                    num == a.0 * base,
                    den == b.0 as nat * (g * base),
                    a.0 < 0x20_0000_0000_0000,
                    g > 0x1000_0000_0000_0000,
                    base > 0,
                    b.0 > 0,
            ;
            assert(magnitude(0) == 0 && magnitude(1) == 1) by {
                lemma_split(0, 0, 0);
                lemma_split(1, 0, 1);
            }
        }
        return 0;
    }
    // num / den == top * 2^lift / bottom
    let lift: u64 = if a.1 + 1074 >= b.1 {
        a.1 + 1074 - b.1
    } else {
        0
    };
    let sink: u64 = if a.1 + 1074 >= b.1 {
        0
    } else {
        b.1 - a.1 - 1074
    };
    let scale: u128 = power(sink);
    proof {
        lemma_pow2_60();
        if sink < 60 {
            lemma_pow2_strictly_increases(sink as nat, 60);
        }
        assert(b.0 * scale <= 0x1F_FFFF_FFFF_FFFF * 0x1000_0000_0000_0000) by (nonlinear_arith)
            requires
                b.0 <= 0x1F_FFFF_FFFF_FFFF,
                scale <= 0x1000_0000_0000_0000,
        ;
        lemma_pow2_pos(sink as nat);
        assert(b.0 * scale > 0) by (nonlinear_arith)
            requires
                b.0 > 0,
                scale > 0,
        ;
    }
    let bottom: u128 = (b.0 as u128) * scale;
    let mut top: u128 = a.0 as u128;
    let mut raised: u64 = 0;
    let ghost common = pow2(if b.1 as nat <= a.1 + 1074 { b.1 as nat } else { (a.1 + 1074) as nat });
    proof {
        assert(sink > 0 ==> lift == 0);
        assert(pow2(0) == 1);
        if a.1 + 1074 >= b.1 {
            lemma_pow2_adds(lift as nat, b.1 as nat);
        } else {
            lemma_pow2_adds(sink as nat, (a.1 + 1074) as nat);
        }
        assert(den == bottom * common) by (nonlinear_arith)
            requires
                den == b.0 as nat * pow2(b.1 as nat),
                bottom == b.0 * scale,
                pow2(b.1 as nat) == scale * common,
        ;
        assert(pow2((a.1 + 1074) as nat) == pow2(lift as nat) * common);
        lemma_pow2_pos((a.1 + 1074) as nat);
        assert(common > 0);
    }
    while raised < lift && top < bottom * 0x10_0000_0000_0000
        invariant
            raised <= lift,
            top == a.0 * pow2(raised as nat),
            0 < bottom <= 0x1F_FFFF_FFFF_FFFF * 0x1000_0000_0000_0000,
            top < 0x20_0000_0000_0000 * bottom,
            sink == 0 ==> bottom == b.0,
            sink > 0 ==> lift == 0,
            b.0 < 2 * IMPLICIT_BIT,
        decreases lift - raised,
    {
        proof {
            lemma_pow2_unfold((raised + 1) as nat);
            assert(a.0 * (2 * pow2(raised as nat)) == 2 * (a.0 * pow2(raised as nat)))
                by (nonlinear_arith);
        }
        top = top * 2;
        raised = raised + 1;
    }
    let n: u128 = top / bottom;
    let rest: u128 = top % bottom;
    let up: bool = 2 * rest > bottom || (2 * rest == bottom && n % 2 == 1);
    let shift: u64 = lift - raised;
    proof {
        lemma_fundamental_div_mod(top as int, bottom as int);
        lemma_pow2_adds(raised as nat, shift as nat);
        lemma_pow2_pos(shift as nat);
        let p = pow2(shift as nat);
        let c = common;
        // num == top * 2^shift * common, den == bottom * common
        assert(num == top * p * c) by (nonlinear_arith)
            requires
                num == a.0 * (pow2(lift as nat) * c),
                pow2(lift as nat) == pow2(raised as nat) * p,
                top == a.0 * pow2(raised as nat),
        ;
        assert(n < 2 * IMPLICIT_BIT) by (nonlinear_arith)
            requires
                top < 0x20_0000_0000_0000 * bottom,
                top >= bottom * n,
                bottom > 0,
        ;
        if shift > 0 {
            assert(n >= IMPLICIT_BIT) by (nonlinear_arith)
                requires
                    top >= bottom * IMPLICIT_BIT,
                    top == bottom * n + rest,
                    rest < bottom,
            ;
        }
        assert(den * (n * p) <= num < den * ((n + 1) * p)) by (nonlinear_arith)
            requires
                num == top * p * c,
                den == bottom * c,
                top == bottom * n + rest,
                0 <= rest < bottom,
                p > 0,
                c > 0,
        ;
        let middle = (den * ((2 * n + 1) * p)) as nat;
        assert(2 * num - middle == (p * c) * (2 * rest - bottom)) by (nonlinear_arith)
            requires
                num == top * p * c,
                den == bottom * c,
                top == bottom * n + rest,
                middle == den * ((2 * n + 1) * p),
        ;
        assert((2 * rest > bottom ==> 2 * num > middle) && (2 * rest < bottom ==> 2 * num < middle)
            && (2 * rest == bottom ==> 2 * num == middle)) by (nonlinear_arith)
            requires
                2 * num - middle == (p * c) * (2 * rest - bottom),
                p > 0,
                c > 0,
        ;
        lemma_round_at(num, den, n as nat, shift as nat, up);
    }
    let bits: u64 = shift * IMPLICIT_BIT + (n as u64);
    if up {
        bits + 1
    } else {
        bits
    }
}

/// The largest pattern whose value does not exceed `num / den` units.
proof fn lemma_floor(num: nat, den: nat, limit: nat) -> (bits: nat)
    requires
        den > 0,
        num < den * magnitude(limit),
    ensures
        den * magnitude(bits) <= num < den * magnitude(bits + 1),
    decreases limit,
{
    if limit == 0 {
        lemma_split(0, 0, 0);
        assert(den * magnitude(0) == 0) by (nonlinear_arith)
            requires
                magnitude(0) == 0,
        ;
        0
    } else if den * magnitude((limit - 1) as nat) <= num {
        (limit - 1) as nat
    } else {
        lemma_floor(num, den, (limit - 1) as nat)
    }
}

/// A pattern's value is at least the pattern read as an integer.
proof fn lemma_magnitude_grows(bits: nat)
    ensures
        magnitude(bits) >= bits,
    decreases bits,
{
    if bits > 0 {
        lemma_magnitude_grows((bits - 1) as nat);
        lemma_magnitude_monotone((bits - 1) as nat, bits);
    }
}

/// Every number has a nearest pattern.
pub proof fn lemma_nearest_exists(num: nat, den: nat)
    requires
        den > 0,
    ensures
        rounds_to(num, den, nearest(num, den)),
{
    lemma_magnitude_grows(num + 1);
    assert(num < den * magnitude(num + 1)) by (nonlinear_arith)
        requires
            magnitude(num + 1) >= num + 1,
            den > 0,
    ;
    let b = lemma_floor(num, den, num + 1);
    let low = magnitude(b);
    let high = magnitude(b + 1);
    let middle = den * (low + high);
    if 2 * num < middle || (2 * num == middle && b % 2 == 0) {
        if b > 0 {
            let below = magnitude((b - 1) as nat) + low;
            lemma_magnitude_monotone((b - 1) as nat, b);
            assert(den * below < 2 * num) by (nonlinear_arith)
                requires
                    below < 2 * low,
                    den * low <= num,
                    den > 0,
            ;
        }
        assert(rounds_to(num, den, b));
    } else {
        let above = high + magnitude(b + 2);
        lemma_magnitude_monotone(b + 1, b + 2);
        assert(2 * num < den * above) by (nonlinear_arith)
            requires
                above > 2 * high,
                num < den * high,
        ;
        assert(rounds_to(num, den, b + 1));
    }
}

/// `1.0` is one.
pub proof fn lemma_one()
    ensures
        magnitude(ONE_BITS as nat) == one_unit(),
        one_unit() > 0,
{
    lemma_encode(IMPLICIT_BIT as nat, 1022);
    lemma_pow2_adds(52, 1022);
    vstd::arithmetic::power2::lemma2_to64_rest();
    lemma_pow2_pos(1074);
}

/// The pattern of `2^53`, past which adding one no longer changes a sum.
pub const SUM_LIMIT_BITS: u64 = 0x4340_0000_0000_0000;

impl Double {
    /// A sum of scores: a natural double no larger than `2^53`.
    pub open spec fn is_score_sum(self) -> bool {
        0 <= ordinal(self.bits) <= SUM_LIMIT_BITS
    }
}

/// Adding a score to a sum of scores gives a sum of scores.
pub proof fn lemma_sum_bounded(total: Double, score: Double)
    requires
        total.is_score_sum(),
        score.in_unit(),
    ensures
        total.sum_spec(score).is_score_sum(),
        total.sum_spec(score).bits <= SUM_LIMIT_BITS,
{
    let limit = SUM_LIMIT_BITS as nat;
    let num = total.value() + score.value();
    let bits = nearest(num, 1);
    lemma_nearest_exists(num, 1);
    lemma_one();
    if total.bits != SUM_LIMIT_BITS {
        lemma_magnitude_monotone(ordinal(total.bits) as nat, limit);
    }
    if ordinal(score.bits) < ONE_BITS {
        lemma_magnitude_monotone(ordinal(score.bits) as nat, ONE_BITS as nat);
    }
    lemma_encode(IMPLICIT_BIT as nat, 1075);
    lemma_encode((IMPLICIT_BIT + 1) as nat, 1075);
    lemma_pow2_unfold(1075);
    assert(1075 * (IMPLICIT_BIT as nat) + (IMPLICIT_BIT as nat) == limit);
    let step = pow2(1075);
    let h = IMPLICIT_BIT as nat;
    assert((h + 1) * step == h * step + step) by (nonlinear_arith);
    if bits > limit {
        if bits > limit + 1 {
            lemma_magnitude_monotone(limit, (bits - 1) as nat);
            lemma_magnitude_monotone(limit + 1, bits);
        }
    }
}

/// A number divided by itself is `1.0`.
pub proof fn lemma_quotient_self(part: Double, whole: Double)
    requires
        part.is_natural(),
        whole.is_natural(),
        0 < whole.value(),
        part.value() == whole.value(),
    ensures
        part.quotient_spec(whole).bits == ONE_BITS,
{
    lemma_one();
    lemma_rounding_exact(whole.value(), ONE_BITS as nat);
    assert(part.value() * one_unit() == whole.value() * magnitude(ONE_BITS as nat));
    lemma_nearest(part.value() * one_unit(), whole.value(), ONE_BITS as nat);
}

/// `num / den` rounded to the nearest integer, a tie going to the even one.
pub open spec fn half_even(num: nat, den: nat) -> nat {
    let quotient = num / den;
    let rest = num % den;
    if 2 * rest > den || (2 * rest == den && quotient % 2 == 1) {
        quotient + 1
    } else {
        quotient
    }
}

/// The decimal text of `hundredths / 100`, with two decimals.
pub open spec fn hundredths_text(hundredths: nat) -> Seq<char> {
    decimal(hundredths / 100) + seq![
        '.',
        digit(hundredths / 10 % 10),
        digit(hundredths % 10),
    ]
}

/// The text of a double with two decimals: the sign of a negative zero, then the
/// nearest hundredth.
pub open spec fn two_decimals(d: Double) -> Seq<char>
    recommends
        0 <= ordinal(d.bits) <= INFINITY_BITS,
{
    if d.bits == INFINITY_BITS {
        seq!['i', 'n', 'f']
    } else if d.bits == SIGN_BIT {
        seq!['-'] + hundredths_text(0)
    } else {
        hundredths_text(half_even(100 * d.value(), one_unit()))
    }
}

/// A common factor does not change a rounded quotient.
proof fn lemma_half_even_scaled(num: nat, den: nat, factor: nat)
    requires
        den > 0,
        factor > 0,
    ensures
        half_even(num * factor, den * factor) == half_even(num, den),
{
    let q = num / den;
    let r = num % den;
    lemma_fundamental_div_mod(num as int, den as int);
    assert(num * factor == q * (den * factor) + r * factor) by (nonlinear_arith)
        requires
            num == den * q + r,
    ;
    assert(0 <= r * factor < den * factor) by (nonlinear_arith)
        requires
            0 <= r < den,
            factor > 0,
    ;
    lemma_fundamental_div_mod_converse(
        (num * factor) as int,
        (den * factor) as int,
        q as int,
        (r * factor) as int,
    );
    assert((2 * r > den <==> 2 * (r * factor) > den * factor) && (2 * r == den <==> 2 * (r * factor)
        == den * factor)) by (nonlinear_arith)
        requires
            factor > 0,
    ;
}

/// Appends a number of hundredths with two decimals.
fn push_hundredths(out: &mut String, hundredths: u64)
    ensures
        final(out)@ == old(out)@ + hundredths_text(hundredths as nat),
{
    push_decimal(out, hundredths / 100);
    out.push('.');
    out.push(digit_char(hundredths / 10 % 10));
    out.push(digit_char(hundredths % 10));
    assert(out@ =~= old(out)@ + hundredths_text(hundredths as nat));
}

impl Double {
    /// The text with two decimals.
    pub fn to_two_decimals(self) -> (r: String)
        requires
            0 <= ordinal(self.bits) <= INFINITY_BITS,
        ensures
            r@ == two_decimals(self),
    {
        let mut out = String::new();
        if self.bits == INFINITY_BITS {
            out.push('i');
            out.push('n');
            out.push('f');
            assert(out@ =~= seq!['i', 'n', 'f']);
            return out;
        }
        if self.bits == SIGN_BIT {
            out.push('-');
            push_hundredths(&mut out, 0);
            assert(out@ =~= seq!['-'] + hundredths_text(0));
            return out;
        }
        let (m, shift): (u64, u64) = self.unpack();
        let ghost num = 100 * self.value();
        if shift >= 1074 {
            let lift: u64 = shift - 1074;
            push_scaled(&mut out, m, lift);
            out.push('.');
            out.push('0');
            out.push('0');
            proof {
                let whole = (m * pow2(lift as nat)) as nat;
                lemma_pow2_adds(lift as nat, 1074);
                lemma_pow2_pos(1074);
                assert(num == (100 * whole) * one_unit()) by (nonlinear_arith)
                    requires
                        num == 100 * (m * pow2(shift as nat)),
                        pow2(shift as nat) == pow2(lift as nat) * one_unit(),
                        whole == m * pow2(lift as nat),
                ;
                lemma_fundamental_div_mod_converse(
                    num as int,
                    one_unit() as int,
                    100 * whole as int,
                    0,
                );
                assert(half_even(num, one_unit()) == 100 * whole);
                assert(out@ =~= hundredths_text(100 * whole));
            }
            out
        } else {
            let drop: u64 = 1074 - shift;
            let hundredths: u64 = rounded_hundredths(m, drop);
            proof {
                lemma_pow2_adds(drop as nat, shift as nat);
                lemma_pow2_pos(drop as nat);
                lemma_pow2_pos(shift as nat);
                assert(num == (100 * m) * pow2(shift as nat)) by (nonlinear_arith)
                    requires
                        num == 100 * (m * pow2(shift as nat)),
                ;
                lemma_half_even_scaled((100 * m) as nat, pow2(drop as nat), pow2(shift as nat));
            }
            push_hundredths(&mut out, hundredths);
            assert(out@ =~= hundredths_text(hundredths as nat));
            out
        }
    }
}

/// `100 * m / 2^drop`, rounded.
fn rounded_hundredths(m: u64, drop: u64) -> (r: u64)
    requires
        m < 2 * IMPLICIT_BIT,
    ensures
        r == half_even((100 * m) as nat, pow2(drop as nat)),
{
    let num: u64 = 100 * m;
    proof {
        lemma_pow2_pos(drop as nat);
        lemma_pow2_60();
    }
    if drop > 62 {
        proof {
            lemma_pow2_unfold(62);
            lemma_pow2_unfold(61);
            lemma_pow2_strictly_increases(62, drop as nat);
            lemma_fundamental_div_mod_converse(
                num as int,
                pow2(drop as nat) as int,
                0,
                num as int,
            );
        }
        0
    } else {
        let den: u128 = power(drop);
        let quotient: u128 = (num as u128) / den;
        let rest: u128 = (num as u128) % den;
        proof {
            lemma_fundamental_div_mod(num as int, den as int);
            lemma_pow2_unfold(62);
            lemma_pow2_unfold(61);
            if drop < 62 {
                lemma_pow2_strictly_increases(drop as nat, 62);
            }
            assert(quotient <= num) by (nonlinear_arith)
                requires
                    num == den * quotient + rest,
                    den >= 1,
            ;
        }
        if 2 * rest > den || (2 * rest == den && quotient % 2 == 1) {
            (quotient as u64) + 1
        } else {
            quotient as u64
        }
    }
}

/// Rounding never falls below a representable number.
pub proof fn lemma_rounding_at_least(num: nat, den: nat, bits: nat, bound: nat)
    requires
        den > 0,
        rounds_to(num, den, bits),
        num >= den * magnitude(bound),
    ensures
        bits >= bound,
{
    if bits < bound {
        let above = magnitude(bits) + magnitude(bits + 1);
        lemma_magnitude_monotone(bits, bits + 1);
        if bits + 1 < bound {
            lemma_magnitude_monotone(bits + 1, bound);
        }
        assert(den * above < 2 * num) by (nonlinear_arith)
            requires
                above < 2 * magnitude(bound),
                num >= den * magnitude(bound),
                den > 0,
        ;
    }
}

/// The pattern of `2^64`.
pub const TWO_POW_64_BITS: u64 = 0x43F0_0000_0000_0000;

/// A score times a machine integer is a finite number.
pub proof fn lemma_scaled_natural(score: Double, factor: u64)
    requires
        score.in_unit(),
    ensures
        score.scaled_spec(factor as nat).is_natural(),
        score.scaled_spec(factor as nat).bits <= TWO_POW_64_BITS,
        score.scaled_spec(factor as nat).bits == nearest(score.value() * (factor as nat), 1),
{
    let num = score.value() * (factor as nat);
    lemma_nearest_exists(num, 1);
    lemma_one();
    if ordinal(score.bits) < ONE_BITS {
        lemma_magnitude_monotone(ordinal(score.bits) as nat, ONE_BITS as nat);
    }
    lemma_encode(IMPLICIT_BIT as nat, 1086);
    lemma_pow2_adds(64, 1022);
    lemma_pow2_adds(52, 1022);
    lemma_pow2_60();
    vstd::arithmetic::power2::lemma2_to64();
    vstd::arithmetic::power2::lemma2_to64_rest();
    let p = pow2(1022);
    assert(num <= magnitude(TWO_POW_64_BITS as nat)) by (nonlinear_arith)
        requires
            num == score.value() * (factor as nat),
            score.value() <= 0x10_0000_0000_0000 * p,
            factor < 0x1_0000_0000_0000_0000,
            magnitude(TWO_POW_64_BITS as nat) == 0x10_0000_0000_0000 * (0x1_0000_0000_0000_0000
                * p),
    ;
    lemma_rounding_bounded(num, 1, nearest(num, 1), TWO_POW_64_BITS as nat);
}

/// A positive machine integer, as a double, is at least one.
pub proof fn lemma_integer_positive(n: u64)
    requires
        n > 0,
    ensures
        (Double { bits: ONE_BITS }).scaled_spec(n as nat).value() > 0,
{
    let one = Double { bits: ONE_BITS };
    let num = one.value() * (n as nat);
    lemma_scaled_natural(one, n);
    lemma_nearest_exists(num, 1);
    lemma_one();
    assert(num >= 1 * magnitude(ONE_BITS as nat)) by (nonlinear_arith)
        requires
            num == magnitude(ONE_BITS as nat) * (n as nat),
            n > 0,
    ;
    lemma_rounding_at_least(num, 1, nearest(num, 1), ONE_BITS as nat);
    lemma_magnitude_monotone(0, nearest(num, 1));
}

/// The sum of scores, added in order.
pub open spec fn total(scores: Seq<Double>) -> Double
    decreases scores.len(),
{
    if scores.len() == 0 {
        Double { bits: 0 }
    } else {
        total(scores.drop_last()).sum_spec(scores.last())
    }
}

} // verus!
