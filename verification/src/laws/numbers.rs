//! Laws of numbers: what a pattern stands for, and what rounding gives.

use crate::double::lemma_magnitude_monotone;
use crate::double::lemma_nearest_exists;
use crate::double::lemma_one;
use crate::double::magnitude;
use crate::double::nearest;
use crate::double::one_unit;
use crate::double::rounds_to;
use crate::double::Double;
use crate::double::IMPLICIT_BIT;
use crate::double::INFINITY_BITS;
use crate::double::ONE_BITS;
use vstd::arithmetic::power2::lemma_pow2_unfold;
use vstd::arithmetic::power2::pow2;
use vstd::prelude::*;

verus! {

/// Small patterns count units; from there on, a step of the exponent doubles the
/// magnitude.
pub proof fn an_exponent_step_doubles(bits: nat)
    ensures
        bits <= IMPLICIT_BIT ==> magnitude(bits) == bits,
        bits >= IMPLICIT_BIT ==> magnitude(bits + IMPLICIT_BIT as nat) == 2 * magnitude(bits),
{
    let unit = IMPLICIT_BIT as nat;
    vstd::arithmetic::power2::lemma2_to64();
    if bits < unit {
        assert(bits / unit == 0 && bits % unit == bits) by {
            vstd::arithmetic::div_mod::lemma_small_mod(bits, unit);
            vstd::arithmetic::div_mod::lemma_basic_div(bits as int, unit as int);
        }
    } else {
        let e = bits / unit;
        let f = bits % unit;
        vstd::arithmetic::div_mod::lemma_fundamental_div_mod(bits as int, unit as int);
        assert(e >= 1) by (nonlinear_arith)
            requires
                bits == unit * e + f,
                f < unit,
                bits >= unit,
        ;
        vstd::arithmetic::div_mod::lemma_fundamental_div_mod_converse(
            (bits + unit) as int,
            unit as int,
            (e + 1) as int,
            f as int,
        );
        lemma_pow2_unfold(e);
        assert((unit + f) * pow2(e) == 2 * ((unit + f) * pow2((e - 1) as nat))) by (nonlinear_arith)
            requires
                pow2(e) == 2 * pow2((e - 1) as nat),
        ;
        if bits == unit {
            vstd::arithmetic::div_mod::lemma_fundamental_div_mod_converse(
                unit as int,
                unit as int,
                1,
                0,
            );
        }
    }
}

/// How far apart two numbers are.
pub open spec fn distance(a: int, b: int) -> int {
    if a < b {
        b - a
    } else {
        a - b
    }
}

/// A rounded ratio is as near as any pattern can be, and an even one where two are as
/// near.
pub proof fn rounding_goes_to_the_nearest(num: nat, den: nat, bits: nat, other: nat)
    requires
        den > 0,
        rounds_to(num, den, bits),
        other != bits,
    ensures
        distance(num as int, (den * magnitude(bits)) as int) <= distance(
            num as int,
            (den * magnitude(other)) as int,
        ),
        distance(num as int, (den * magnitude(bits)) as int) == distance(
            num as int,
            (den * magnitude(other)) as int,
        ) ==> bits % 2 == 0,
{
    let x = den * magnitude(bits);
    let y = den * magnitude(other);
    if other < bits {
        let below = (bits - 1) as nat;
        let z = den * magnitude(below);
        if other < below {
            lemma_magnitude_monotone(other, below);
        }
        lemma_magnitude_monotone(below, bits);
        assert(y <= z && z < x) by (nonlinear_arith)
            requires
                den > 0,
                x == den * magnitude(bits),
                y == den * magnitude(other),
                z == den * magnitude(below),
                magnitude(other) <= magnitude(below),
                magnitude(below) < magnitude(bits),
        ;
        assert(den * (magnitude(below) + magnitude(bits)) == z + x) by (nonlinear_arith)
            requires
                x == den * magnitude(bits),
                z == den * magnitude(below),
        ;
    } else {
        let above = bits + 1;
        let z = den * magnitude(above);
        if above < other {
            lemma_magnitude_monotone(above, other);
        }
        lemma_magnitude_monotone(bits, above);
        assert(z <= y && x < z) by (nonlinear_arith)
            requires
                den > 0,
                x == den * magnitude(bits),
                y == den * magnitude(other),
                z == den * magnitude(above),
                magnitude(above) <= magnitude(other),
                magnitude(bits) < magnitude(above),
        ;
        assert(den * (magnitude(bits) + magnitude(above)) == x + z) by (nonlinear_arith)
            requires
                x == den * magnitude(bits),
                z == den * magnitude(above),
        ;
    }
}

/// Sums, products and quotients are the exact results, rounded; beyond the largest
/// double they are infinite.
pub proof fn arithmetic_rounds_the_exact_result(a: Double, b: Double, factor: nat)
    requires
        a.is_natural(),
        b.is_natural(),
    ensures
        rounds_to(a.value() + b.value(), 1, nearest(a.value() + b.value(), 1)),
        nearest(a.value() + b.value(), 1) < INFINITY_BITS ==> a.sum_spec(b).bits == nearest(
            a.value() + b.value(),
            1,
        ),
        nearest(a.value() + b.value(), 1) >= INFINITY_BITS ==> a.sum_spec(b).bits == INFINITY_BITS,
        rounds_to(a.value() * factor, 1, nearest(a.value() * factor, 1)),
        nearest(a.value() * factor, 1) < INFINITY_BITS ==> a.scaled_spec(factor).bits == nearest(
            a.value() * factor,
            1,
        ),
        b.value() > 0 ==> rounds_to(
            a.value() * one_unit(),
            b.value(),
            nearest(a.value() * one_unit(), b.value()),
        ),
        b.value() > 0 && nearest(a.value() * one_unit(), b.value()) < INFINITY_BITS
            ==> a.quotient_spec(b).bits == nearest(a.value() * one_unit(), b.value()),
        magnitude(ONE_BITS as nat) == one_unit(),
{
    lemma_nearest_exists(a.value() + b.value(), 1);
    lemma_nearest_exists(a.value() * factor, 1);
    if b.value() > 0 {
        lemma_nearest_exists(a.value() * one_unit(), b.value());
    }
    lemma_one();
}

} // verus!
