//! Rounding a number so that a 96-bit mantissa with up to 28 digits behind the
//! point holds it.

use vstd::arithmetic::power::pow;
use vstd::prelude::*;

use crate::decimal::{round_away_from_zero, MAX_SCALE};
use crate::primitives::MAX_SATOSHIS;

verus! {

/// Is `mantissa / 10^digits` the number with `digits` digits behind the point that
/// is nearest to `num / den`, or one of the two nearest?
pub open spec fn is_nearest(num: int, den: int, mantissa: int, digits: nat) -> bool {
    -den <= 2 * (mantissa * den - num * pow(10, digits)) <= den
}

/// Is `mantissa` even where `num / den` lies in the middle between two numbers with
/// `digits` digits behind the point?
pub open spec fn ties_to_even(num: int, den: int, mantissa: int, digits: nat) -> bool {
    let off = 2 * (mantissa * den - num * pow(10, digits));
    off == den || off == -den ==> mantissa % 2 == 0
}

/// Is there no sense in, or no room for, one more digit behind the point?
pub open spec fn is_finest(num: int, den: int, mantissa: int, digits: nat) -> bool {
    ||| digits == MAX_SCALE
    ||| mantissa * den == num * pow(10, digits)
    ||| 2 * num * pow(10, digits + 1) >= (2 * MAX_SATOSHIS + 1) * den
}

/// Is `mantissa / 10^digits` what is held of `num / den`?
pub open spec fn is_held(num: int, den: int, mantissa: int, digits: nat) -> bool {
    &&& digits <= MAX_SCALE
    &&& 0 <= mantissa <= MAX_SATOSHIS
    &&& is_nearest(num, den, mantissa, digits)
    &&& is_finest(num, den, mantissa, digits)
}

/// Is `mantissa / 10^scale` what is held of `num / den`, zeros at the end left out?
pub open spec fn is_held_shortened(num: int, den: int, mantissa: int, scale: nat) -> bool {
    exists|digits: nat|
        scale <= digits && #[trigger] is_held(
            num,
            den,
            mantissa * pow(10, (digits - scale) as nat),
            digits,
        )
}

/// Powers of ten, as far as rounding needs them.
pub proof fn lemma_tens(low: nat, high: nat)
    requires
        low <= high,
    ensures
        pow(10, low) >= 1,
        pow(10, high) >= 1,
        pow(10, (high - low) as nat) >= 1,
        pow(10, high) == pow(10, low) * pow(10, (high - low) as nat),
        low < high ==> pow(10, (high - low) as nat) >= 10,
        pow(10, low + 1) == 10 * pow(10, low),
{
    vstd::arithmetic::power::lemma_pow_positive(10, low);
    vstd::arithmetic::power::lemma_pow_positive(10, high);
    vstd::arithmetic::power::lemma_pow_positive(10, (high - low) as nat);
    vstd::arithmetic::power::lemma_pow_adds(10, low, (high - low) as nat);
    reveal_with_fuel(pow, 2);
    if low < high {
        let rest = (high - low - 1) as nat;
        vstd::arithmetic::power::lemma_pow_positive(10, rest);
        assert(pow(10, (high - low) as nat) == 10 * pow(10, rest));
    }
}

/// 10^28, written out.
pub proof fn lemma_ten_to_28()
    ensures
        pow(10, 28) == 10000000000000000000000000000,
{
    reveal_with_fuel(pow, 29);
}

/// What is held of a number that is not negative is not negative.
pub proof fn lemma_held_is_not_negative(num: int, den: int, mantissa: int, scale: nat)
    requires
        is_held_shortened(num, den, mantissa, scale),
    ensures
        0 <= mantissa,
{
    let digits = choose|digits: nat|
        scale <= digits && #[trigger] is_held(
            num,
            den,
            mantissa * pow(10, (digits - scale) as nat),
            digits,
        );
    lemma_tens(scale, digits);
    let step = pow(10, (digits - scale) as nat);
    assert(0 <= mantissa) by (nonlinear_arith)
        requires
            0 <= mantissa * step,
            step >= 1,
    ;
}

/// The same number with other terms is held in the same way.
proof fn lemma_held_expanded(num: int, den: int, mantissa: int, digits: nat, times: int)
    requires
        is_held(num, den, mantissa, digits),
        den > 0,
        times > 0,
    ensures
        is_held(num * times, den * times, mantissa, digits),
        ties_to_even(num, den, mantissa, digits) ==> ties_to_even(
            num * times,
            den * times,
            mantissa,
            digits,
        ),
{
    let ten = pow(10, digits);
    let more = pow(10, digits + 1);
    let off = mantissa * den - num * ten;
    assert(mantissa * (den * times) - (num * times) * ten == off * times) by (nonlinear_arith)
        requires
            off == mantissa * den - num * ten,
    ;
    assert(2 * (off * times) == (2 * off) * times) by (nonlinear_arith);
    assert(-(den * times) <= (2 * off) * times <= den * times) by (nonlinear_arith)
        requires
            -den <= 2 * off <= den,
            times > 0,
    ;
    if mantissa * den == num * ten {
        assert(off * times == 0) by (nonlinear_arith)
            requires
                off == 0,
        ;
    }
    if 2 * num * more >= (2 * MAX_SATOSHIS + 1) * den {
        let limit = 2 * MAX_SATOSHIS + 1;
        assert(2 * (num * times) * more >= limit * (den * times)) by (nonlinear_arith)
            requires
                2 * num * more >= limit * den,
                times > 0,
        ;
    }
    if (2 * off) * times == den * times {
        assert(2 * off == den) by (nonlinear_arith)
            requires
                (2 * off) * times == den * times,
                times > 0,
        ;
    }
    if (2 * off) * times == -(den * times) {
        assert(2 * off == -den) by (nonlinear_arith)
            requires
                (2 * off) * times == -(den * times),
                times > 0,
        ;
    }
}

/// What is held of a larger number is no smaller.
proof fn lemma_held_grows_over(
    den: int,
    num1: int,
    mantissa1: int,
    digits1: nat,
    num2: int,
    mantissa2: int,
    digits2: nat,
)
    requires
        den > 0,
        0 <= num1 <= num2,
        is_held(num1, den, mantissa1, digits1),
        is_held(num2, den, mantissa2, digits2),
        num1 == num2 ==> ties_to_even(num1, den, mantissa1, digits1) && ties_to_even(
            num2,
            den,
            mantissa2,
            digits2,
        ),
    ensures
        mantissa1 * pow(10, digits2) <= mantissa2 * pow(10, digits1),
{
    let ten1 = pow(10, digits1);
    let ten2 = pow(10, digits2);
    if digits1 == digits2 {
        lemma_tens(digits1, digits1);
        assert(num1 * ten1 <= num2 * ten1) by (nonlinear_arith)
            requires
                num1 <= num2,
                ten1 >= 1,
        ;
        if mantissa1 > mantissa2 {
            assert(mantissa1 * den >= mantissa2 * den + den) by (nonlinear_arith)
                requires
                    mantissa1 >= mantissa2 + 1,
                    den > 0,
            ;
            assert(num1 == num2) by (nonlinear_arith)
                requires
                    num1 * ten1 == num2 * ten1,
                    ten1 >= 1,
            ;
            assert(mantissa1 == mantissa2 + 1) by (nonlinear_arith)
                requires
                    mantissa1 * den == mantissa2 * den + den,
                    den > 0,
            ;
            assert(false);
        }
        assert(mantissa1 * ten1 <= mantissa2 * ten1) by (nonlinear_arith)
            requires
                mantissa1 <= mantissa2,
                ten1 >= 1,
        ;
    } else if digits1 > digits2 {
        lemma_tens(digits2, digits1);
        let step = pow(10, (digits1 - digits2) as nat);
        assert(mantissa1 <= mantissa2 * step) by {
            if mantissa2 * den == num2 * ten2 {
                assert((mantissa2 * step) * den == num2 * ten1) by (nonlinear_arith)
                    requires
                        mantissa2 * den == num2 * ten2,
                        ten1 == ten2 * step,
                ;
                assert(num1 * ten1 <= num2 * ten1) by (nonlinear_arith)
                    requires
                        num1 <= num2,
                        ten1 >= 1,
                ;
                let most = mantissa2 * step;
                assert(mantissa1 <= most) by (nonlinear_arith)
                    requires
                        2 * (mantissa1 * den) <= 2 * (most * den) + den,
                        den > 0,
                ;
            } else {
                let more = pow(10, digits2 + 1);
                assert(2 * num2 * more == 20 * (num2 * ten2)) by (nonlinear_arith)
                    requires
                        more == 10 * ten2,
                ;
                let limit = 2 * MAX_SATOSHIS + 1;
                assert(20 * mantissa2 >= limit - 10) by (nonlinear_arith)
                    requires
                        20 * (num2 * ten2) >= limit * den,
                        2 * (mantissa2 * den - num2 * ten2) >= -den,
                        den > 0,
                ;
                assert(mantissa2 * step >= mantissa2 * 10) by (nonlinear_arith)
                    requires
                        mantissa2 >= 0,
                        step >= 10,
                ;
            }
        }
        assert(mantissa1 * ten2 <= mantissa2 * ten1) by (nonlinear_arith)
            requires
                mantissa1 <= mantissa2 * step,
                ten1 == ten2 * step,
                ten2 >= 1,
        ;
    } else {
        lemma_tens(digits1, digits2);
        let step = pow(10, (digits2 - digits1) as nat);
        assert(num1 * ten2 <= num2 * ten2) by (nonlinear_arith)
            requires
                num1 <= num2,
                ten2 >= 1,
        ;
        assert(mantissa1 * step <= mantissa2) by {
            if mantissa1 * den == num1 * ten1 {
                let least = mantissa1 * step;
                assert(least * den == num1 * ten2) by (nonlinear_arith)
                    requires
                        least == mantissa1 * step,
                        mantissa1 * den == num1 * ten1,
                        ten2 == ten1 * step,
                ;
                assert(least <= mantissa2) by (nonlinear_arith)
                    requires
                        2 * (least * den) <= 2 * (mantissa2 * den) + den,
                        den > 0,
                ;
            } else {
                let more = pow(10, digits1 + 1);
                let limit = 2 * MAX_SATOSHIS + 1;
                assert(2 * num1 * more == 20 * (num1 * ten1)) by (nonlinear_arith)
                    requires
                        more == 10 * ten1,
                ;
                assert(num1 * ten2 >= 10 * (num1 * ten1)) by (nonlinear_arith)
                    requires
                        ten2 == ten1 * step,
                        step >= 10,
                        num1 >= 0,
                        ten1 >= 1,
                ;
                assert((2 * mantissa2 + 1) * den <= limit * den) by (nonlinear_arith)
                    requires
                        2 * mantissa2 + 1 <= limit,
                        den > 0,
                ;
                assert((2 * mantissa2 + 1) * den == 2 * (mantissa2 * den) + den)
                    by (nonlinear_arith);
                assert(num1 * ten2 == num2 * ten2);
                assert(num1 == num2) by (nonlinear_arith)
                    requires
                        num1 * ten2 == num2 * ten2,
                        ten2 >= 1,
                ;
                assert(2 * mantissa2 + 1 == limit) by (nonlinear_arith)
                    requires
                        (2 * mantissa2 + 1) * den == limit * den,
                        den > 0,
                ;
                assert(false);
            }
        }
        assert(mantissa1 * ten2 <= mantissa2 * ten1) by (nonlinear_arith)
            requires
                mantissa1 * step <= mantissa2,
                ten2 == ten1 * step,
                ten1 >= 1,
        ;
    }
}

/// What is held of a larger number is no smaller. Where the two numbers are the
/// same, ties have to go to the even mantissa.
pub proof fn lemma_held_grows(
    num1: int,
    den1: int,
    mantissa1: int,
    digits1: nat,
    num2: int,
    den2: int,
    mantissa2: int,
    digits2: nat,
)
    requires
        den1 > 0,
        den2 > 0,
        0 <= num1,
        num1 * den2 <= num2 * den1,
        is_held(num1, den1, mantissa1, digits1),
        is_held(num2, den2, mantissa2, digits2),
        num1 * den2 == num2 * den1 ==> ties_to_even(num1, den1, mantissa1, digits1)
            && ties_to_even(num2, den2, mantissa2, digits2),
    ensures
        mantissa1 * pow(10, digits2) <= mantissa2 * pow(10, digits1),
{
    lemma_held_expanded(num1, den1, mantissa1, digits1, den2);
    lemma_held_expanded(num2, den2, mantissa2, digits2, den1);
    assert(den1 * den2 > 0 && den2 * den1 == den1 * den2 && num1 * den2 >= 0)
        by (nonlinear_arith)
        requires
            den1 > 0,
            den2 > 0,
            num1 >= 0,
    ;
    lemma_held_grows_over(
        den1 * den2,
        num1 * den2,
        mantissa1,
        digits1,
        num2 * den1,
        mantissa2,
        digits2,
    );
}

/// A larger number is rounded to no smaller a whole number.
pub proof fn lemma_round_grows(mantissa1: int, scale1: nat, mantissa2: int, scale2: nat)
    requires
        0 <= mantissa1,
        0 <= mantissa2,
        mantissa1 * pow(10, scale2) <= mantissa2 * pow(10, scale1),
    ensures
        round_away_from_zero(mantissa1, scale1) <= round_away_from_zero(mantissa2, scale2),
{
    lemma_round_bounds(mantissa1, scale1);
    lemma_round_bounds(mantissa2, scale2);
    let one1 = pow(10, scale1);
    let one2 = pow(10, scale2);
    let whole1 = round_away_from_zero(mantissa1, scale1);
    let whole2 = round_away_from_zero(mantissa2, scale2);
    if whole1 > whole2 {
        assert(false) by (nonlinear_arith)
            requires
                whole1 >= whole2 + 1,
                mantissa1 * one2 <= mantissa2 * one1,
                (whole1 - 1) * one1 < mantissa1,
                mantissa2 <= whole2 * one2,
                one1 >= 1,
                one2 >= 1,
        ;
    }
}

/// Rounding away from zero goes to the next whole number.
pub proof fn lemma_round_bounds(mantissa: int, scale: nat)
    requires
        0 <= mantissa,
    ensures
        pow(10, scale) >= 1,
        mantissa <= round_away_from_zero(mantissa, scale) * pow(10, scale),
        (round_away_from_zero(mantissa, scale) - 1) * pow(10, scale) < mantissa,
{
    lemma_tens(scale, scale);
    let one = pow(10, scale);
    let whole = (mantissa + one - 1) / one;
    assert(mantissa <= whole * one && (whole - 1) * one < mantissa) by (nonlinear_arith)
        requires
            one >= 1,
            whole == (mantissa + one - 1) / one,
    ;
}

} // verus!
