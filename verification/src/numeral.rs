//! Decimal numerals beyond machine integers.

use crate::text::decimal;
use crate::text::digit;
use crate::text::digit_char;
use vstd::arithmetic::power2::lemma_pow2_unfold;
use vstd::arithmetic::power2::pow2;
use vstd::prelude::*;

verus! {

/// The number that decimal digits write, the most significant first.
pub open spec fn number(digits: Seq<u8>) -> nat
    decreases digits.len(),
{
    if digits.len() == 0 {
        0
    } else {
        number(digits.drop_last()) * 10 + digits.last() as nat
    }
}

/// Whether `digits` are decimal digits without a leading zero.
pub open spec fn is_numeral(digits: Seq<u8>) -> bool {
    &&& digits.len() > 0
    &&& forall|i: int| 0 <= i < digits.len() ==> #[trigger] digits[i] < 10
    &&& digits.len() > 1 ==> digits[0] > 0
}

/// `10^n`.
spec fn tens(n: nat) -> nat
    decreases n,
{
    if n == 0 {
        1
    } else {
        10 * tens((n - 1) as nat)
    }
}

proof fn lemma_number_single(d: u8)
    ensures
        number(seq![d]) == d,
{
    assert(seq![d].drop_last() =~= Seq::<u8>::empty());
    assert(number(Seq::<u8>::empty()) == 0);
}

proof fn lemma_number_add(a: Seq<u8>, b: Seq<u8>)
    ensures
        number(a + b) == number(a) * tens(b.len()) + number(b),
    decreases b.len(),
{
    if b.len() == 0 {
        assert(a + b =~= a);
        assert(number(a) * tens(0) == number(a)) by (nonlinear_arith)
            requires
                tens(0) == 1,
        ;
    } else {
        let front = b.drop_last();
        assert((a + b).drop_last() =~= a + front);
        assert((a + b).last() == b.last());
        lemma_number_add(a, front);
        assert((number(a) * tens(front.len()) + number(front)) * 10 == number(a) * (10 * tens(
            front.len(),
        )) + number(front) * 10) by (nonlinear_arith);
    }
}

proof fn lemma_numeral_positive(digits: Seq<u8>)
    requires
        digits.len() > 0,
        digits[0] > 0,
    ensures
        number(digits) > 0,
    decreases digits.len(),
{
    if digits.len() > 1 {
        lemma_numeral_positive(digits.drop_last());
    } else {
        assert(digits.drop_last() =~= Seq::<u8>::empty());
    }
}

/// A numeral's characters are the decimal text of its number.
proof fn lemma_numeral_text(digits: Seq<u8>)
    requires
        is_numeral(digits),
    ensures
        decimal(number(digits)) == digits.map_values(|d: u8| digit(d as nat)),
    decreases digits.len(),
{
    let text = digits.map_values(|d: u8| digit(d as nat));
    let front = digits.drop_last();
    if digits.len() == 1 {
        assert(front =~= Seq::<u8>::empty());
        assert(number(digits) == digits[0]);
        assert(text =~= seq![digit(digits[0] as nat)]);
    } else {
        assert(is_numeral(front));
        lemma_numeral_text(front);
        lemma_numeral_positive(front);
        let n = number(digits);
        assert(n / 10 == number(front) && n % 10 == digits.last());
        assert(text =~= front.map_values(|d: u8| digit(d as nat)).push(
            digit(digits.last() as nat),
        ));
    }
}

/// The digits of a machine integer.
fn digits_of(n: u64) -> (r: Vec<u8>)
    ensures
        is_numeral(r@),
        number(r@) == n,
        n > 0 ==> r@[0] > 0,
    decreases n,
{
    if n < 10 {
        let mut r: Vec<u8> = Vec::new();
        r.push(n as u8);
        proof {
            lemma_number_single(n as u8);
            assert(r@ =~= seq![n as u8]);
        }
        r
    } else {
        let mut r = digits_of(n / 10);
        let ghost front = r@;
        r.push((n % 10) as u8);
        assert(r@.drop_last() =~= front);
        r
    }
}

/// Doubles a positive numeral.
fn double(digits: &Vec<u8>) -> (r: Vec<u8>)
    requires
        is_numeral(digits@),
        digits@[0] > 0,
    ensures
        is_numeral(r@),
        r@[0] > 0,
        number(r@) == 2 * number(digits@),
{
    let mut r: Vec<u8> = digits.clone();
    let mut carry: u8 = 0;
    let mut i: usize = r.len();
    let ghost d = digits@;
    assert(r@ =~= d);
    proof {
        assert(d.take(d.len() as int) =~= d);
        assert(d.skip(d.len() as int) =~= Seq::<u8>::empty());
        assert(number(d) * 2 * tens(0) == number(d) * 2) by (nonlinear_arith)
            requires
                tens(0) == 1,
        ;
    }
    while i > 0
        invariant
            i <= r@.len(),
            r@.len() == d.len(),
            is_numeral(d),
            d[0] > 0,
            carry <= 1,
            forall|k: int| 0 <= k < i ==> r@[k] == d[k],
            forall|k: int| i <= k < r@.len() ==> #[trigger] r@[k] < 10,
            i == 0 ==> carry > 0 || r@[0] > 0,
            2 * number(d) == (number(d.take(i as int)) * 2 + carry) * tens((d.len() - i) as nat)
                + number(r@.skip(i as int)),
        decreases i,
    {
        let ghost old_tail = r@.skip(i as int);
        let ghost scale = tens((d.len() - i) as nat);
        let ghost old_carry = carry as nat;
        i = i - 1;
        let sum: u8 = r[i] * 2 + carry;
        let kept: u8 = if sum >= 10 {
            sum - 10
        } else {
            sum
        };
        carry = if sum >= 10 {
            1
        } else {
            0
        };
        r.set(i, kept);
        proof {
            let n = i as int;
            assert(d.take(n + 1).drop_last() =~= d.take(n));
            assert(d.take(n + 1).last() == d[n]);
            assert(r@.skip(n) =~= seq![kept] + old_tail);
            lemma_number_add(seq![kept], old_tail);
            lemma_number_single(kept);
            let high = number(d.take(n));
            assert((high * 10 + d[n]) * 2 + old_carry == (high * 2 + carry) * 10 + kept);
            assert(((high * 2 + carry) * 10 + kept) * scale == (high * 2 + carry) * (10 * scale)
                + kept * scale) by (nonlinear_arith);
        }
    }
    proof {
        assert(d.take(0) =~= Seq::<u8>::empty());
        assert(r@.skip(0) =~= r@);
        assert(number(d.take(0)) == 0);
        assert((0 * 2 + carry) * tens(d.len()) == carry * tens(d.len()));
        if carry == 0 {
            assert(carry * tens(d.len()) == 0) by (nonlinear_arith)
                requires
                    carry == 0,
            ;
        }
    }
    if carry > 0 {
        let ghost tail = r@;
        r.insert(0, carry);
        proof {
            assert(r@ =~= seq![carry] + tail);
            lemma_number_add(seq![carry], tail);
            lemma_number_single(carry);
        }
    }
    r
}

/// Appends the decimal numeral of `n * 2^shift`.
pub(crate) fn push_scaled(out: &mut String, n: u64, shift: u64)
    requires
        n > 0,
    ensures
        final(out)@ == old(out)@ + decimal((n * pow2(shift as nat)) as nat),
{
    let mut digits = digits_of(n);
    let mut i: u64 = 0;
    proof {
        vstd::arithmetic::power2::lemma2_to64();
    }
    while i < shift
        invariant
            i <= shift,
            is_numeral(digits@),
            digits@[0] > 0,
            number(digits@) == n * pow2(i as nat),
        decreases shift - i,
    {
        digits = double(&digits);
        proof {
            lemma_pow2_unfold((i + 1) as nat);
            assert(2 * (n * pow2(i as nat)) == n * (2 * pow2(i as nat))) by (nonlinear_arith);
        }
        i = i + 1;
    }
    proof {
        lemma_numeral_text(digits@);
    }
    let ghost text = digits@.map_values(|d: u8| digit(d as nat));
    let mut k: usize = 0;
    while k < digits.len()
        invariant
            k <= digits@.len(),
            is_numeral(digits@),
            text == digits@.map_values(|d: u8| digit(d as nat)),
            out@ == old(out)@ + text.take(k as int),
        decreases digits@.len() - k,
    {
        out.push(digit_char(digits[k] as u64));
        assert(out@ =~= old(out)@ + text.take(k + 1));
        k = k + 1;
    }
    assert(text.take(k as int) =~= text);
}

} // verus!
