//! Decimal numbers with a 96-bit mantissa, as `rust_decimal` computes with them.

use rust_decimal::{Decimal, RoundingStrategy};
use vstd::arithmetic::power::pow;
use vstd::prelude::*;

use crate::primitives::is_amount;
use crate::rounding::{is_held, is_held_shortened, ties_to_even};

verus! {

/// The most digits behind the point.
pub const MAX_SCALE: u32 = 28;

/// The number `mantissa / 10^scale`.
#[derive(Debug, Clone, Copy, PartialEq, Eq, Structural)]
pub struct DecimalParts {
    pub mantissa: i128,
    pub scale: u32,
}

impl DecimalParts {
    /// Is this a number that `rust_decimal` can hold?
    pub open spec fn valid(self) -> bool {
        is_amount(self.mantissa as int) && self.scale <= MAX_SCALE
    }

    /// The whole number `1` in units of the last digit.
    pub open spec fn one(self) -> int {
        pow(10, self.scale as nat)
    }
}

/// `rust_decimal`'s quotient of two whole numbers: mantissa and scale.
pub uninterp spec fn decimal_quotient(dividend: int, divisor: int) -> (int, nat);

/// `rust_decimal`'s product of a whole number and a decimal number, mantissa and
/// scale; `None` where it overflows.
pub uninterp spec fn decimal_product(whole: int, mantissa: int, scale: nat) -> Option<(int, nat)>;

/// `mantissa / 10^scale`, rounded to a whole number away from zero.
pub open spec fn round_away_from_zero(mantissa: int, scale: nat) -> int {
    let one = pow(10, scale);
    if mantissa >= 0 {
        (mantissa + one - 1) / one
    } else {
        -((-mantissa + one - 1) / one)
    }
}

/// The division of `rust_decimal`'s `Decimal`, on whole numbers.
///
/// The contract names the quotient, and claims of it that it can be held, that it
/// is the exact whole number where the divisor divides the dividend, that a part of
/// a whole lies between 0 and 1, and that a quotient of numbers that are not
/// negative is rounded to the nearest number with as many digits as can be held,
/// zeros at the end left out. A division of whole numbers does not overflow.
#[verifier::external_body]
pub(crate) fn divide(dividend: i128, divisor: i128) -> (res: DecimalParts)
    requires
        is_amount(dividend as int),
        is_amount(divisor as int),
        divisor != 0,
    ensures
        res.valid(),
        (res.mantissa as int, res.scale as nat) == decimal_quotient(
            dividend as int,
            divisor as int,
        ),
        dividend as int % divisor as int == 0 ==> res.scale == 0 && res.mantissa * divisor
            == dividend,
        0 <= dividend <= divisor ==> 0 <= res.mantissa <= res.one(),
        0 <= dividend && 0 < divisor ==> is_held_shortened(
            dividend as int,
            divisor as int,
            res.mantissa as int,
            res.scale as nat,
        ),
{
    let quotient = Decimal::from_i128_with_scale(dividend, 0)
        / Decimal::from_i128_with_scale(divisor, 0);
    DecimalParts { mantissa: quotient.mantissa(), scale: quotient.scale() }
}

/// `checked_mul` of `rust_decimal`'s `Decimal`, the first factor a whole number.
///
/// The contract names the product, and claims of it that it can be held, that it
/// is exact where the product of the mantissas can be held (a product of zero has
/// no digits behind the point), that a part of an amount lies between 0 and the
/// amount, and that a product of numbers that are not negative is rounded to the
/// nearest number with as many digits as can be held, ties to the even mantissa.
#[verifier::external_body]
pub(crate) fn multiply(whole: i128, factor: DecimalParts) -> (res: Option<DecimalParts>)
    requires
        is_amount(whole as int),
        factor.valid(),
    ensures
        match res {
            Some(product) => decimal_product(
                whole as int,
                factor.mantissa as int,
                factor.scale as nat,
            ) == Some((product.mantissa as int, product.scale as nat)),
            None => decimal_product(whole as int, factor.mantissa as int, factor.scale as nat)
                is None,
        },
        res matches Some(product) ==> product.valid(),
        is_amount(whole * factor.mantissa) ==> res is Some && res->0.mantissa == whole
            * factor.mantissa && res->0.scale == if whole * factor.mantissa == 0 {
            0
        } else {
            factor.scale
        },
        0 <= whole && 0 <= factor.mantissa <= factor.one() ==> res is Some && 0 <= res->0.mantissa
            <= whole * res->0.one(),
        0 <= whole && 0 <= factor.mantissa ==> (res matches Some(product) ==> {
            &&& is_held(
                whole * factor.mantissa,
                factor.one(),
                product.mantissa as int,
                product.scale as nat,
            )
            &&& ties_to_even(
                whole * factor.mantissa,
                factor.one(),
                product.mantissa as int,
                product.scale as nat,
            )
        }),
{
    let product = Decimal::from_i128_with_scale(whole, 0).checked_mul(
        Decimal::from_i128_with_scale(factor.mantissa, factor.scale),
    );
    match product {
        Some(d) => Some(DecimalParts { mantissa: d.mantissa(), scale: d.scale() }),
        None => None,
    }
}

/// `round_dp_with_strategy` of `rust_decimal`'s `Decimal`, to no digits behind the
/// point and away from zero.
///
/// The contract claims the whole number that is next to the given one on the side
/// away from zero.
#[verifier::external_body]
pub(crate) fn round_up(number: DecimalParts) -> (res: i128)
    requires
        number.valid(),
    ensures
        res == round_away_from_zero(number.mantissa as int, number.scale as nat),
{
    let number = Decimal::from_i128_with_scale(number.mantissa, number.scale);
    number.round_dp_with_strategy(0, RoundingStrategy::AwayFromZero).mantissa()
}

/// Rounding a number that can be held gives one that can be held, on the same side
/// of zero, and a part of a whole amount is rounded to no more than the amount.
pub proof fn lemma_round_away_from_zero(mantissa: int, scale: nat, whole: int)
    requires
        is_amount(mantissa),
    ensures
        is_amount(round_away_from_zero(mantissa, scale)),
        mantissa >= 0 ==> round_away_from_zero(mantissa, scale) >= 0,
        0 <= mantissa <= whole * pow(10, scale) ==> round_away_from_zero(mantissa, scale) <= whole,
        scale == 0 ==> round_away_from_zero(mantissa, scale) == mantissa,
{
    let one = pow(10, scale);
    vstd::arithmetic::power::lemma_pow_positive(10, scale);
    if scale == 0 {
        vstd::arithmetic::power::lemma_pow0(10);
    }
    let size = if mantissa >= 0 {
        mantissa
    } else {
        -mantissa
    };
    let rounded = (size + one - 1) / one;
    assert(0 <= rounded <= size) by (nonlinear_arith)
        requires
            one >= 1,
            size >= 0,
            rounded == (size + one - 1) / one,
    ;
    if 0 <= mantissa <= whole * one {
        assert(rounded <= whole) by (nonlinear_arith)
            requires
                one >= 1,
                mantissa <= whole * one,
                rounded == (mantissa + one - 1) / one,
        ;
    }
}

} // verus!
