//! What holds of the parts of a fee that fall to payouts.

use vstd::arithmetic::power::pow;
use vstd::prelude::*;

use crate::decimal::{decimal_product, decimal_quotient, DecimalParts, MAX_SCALE};
use crate::finished::{fee_share, is_fee_share, whole_fee, FeeShareError, FinishedPsbtBuild};
use crate::finished::WalletTotalsView;
use crate::primitives::{Satoshis, WalletId, MAX_SATOSHIS};
use crate::rounding::{is_held, is_held_shortened, lemma_held_grows, lemma_round_bounds};
use crate::rounding::{lemma_round_grows, lemma_ten_to_28, lemma_tens};

verus! {

/// The part of a fee is off by less than one in so many satoshis of the fee, before
/// it is rounded to whole satoshis.
pub const SHARE_PRECISION: i128 = 8000000000000000000000000000;

/// The quotient of a payout and the output is off by at most half a unit of the
/// 28th digit, and is no more than 1.
proof fn lemma_proportion(payout: int, output: int, mantissa: int, scale: nat, digits: nat)
    requires
        0 <= payout <= output,
        0 < output,
        scale <= digits,
        is_held(payout, output, mantissa * pow(10, (digits - scale) as nat), digits),
    ensures
        pow(10, scale) >= 1,
        -(output * pow(10, scale)) <= 2 * pow(10, 28) * (mantissa * output - payout * pow(
            10,
            scale,
        )) <= output * pow(10, scale),
        0 <= mantissa <= pow(10, scale),
{
    lemma_tens(scale, digits);
    let one = pow(10, scale);
    let step = pow(10, (digits - scale) as nat);
    let full = pow(10, digits);
    let held = mantissa * step;
    let off = mantissa * output - payout * one;
    assert(held * output - payout * full == step * off) by (nonlinear_arith)
        requires
            held == mantissa * step,
            full == one * step,
            off == mantissa * output - payout * one,
    ;
    assert(payout * full <= output * full) by (nonlinear_arith)
        requires
            payout <= output,
            full >= 1,
    ;
    assert(held <= full) by (nonlinear_arith)
        requires
            2 * (held * output) <= 2 * (output * full) + output,
            output > 0,
    ;
    assert(0 <= mantissa <= one) by (nonlinear_arith)
        requires
            0 <= mantissa * step <= one * step,
            step >= 1,
    ;
    let fine = pow(10, 28);
    if held * output == payout * full {
        assert(off == 0) by (nonlinear_arith)
            requires
                step * off == 0,
                step >= 1,
        ;
        assert(2 * fine * off == 0) by (nonlinear_arith)
            requires
                off == 0,
        ;
        assert(output * one >= 0) by (nonlinear_arith)
            requires
                output > 0,
                one >= 1,
        ;
    } else {
        if digits < 28 {
            let limit = 2 * MAX_SATOSHIS + 1;
            let more = pow(10, digits + 1);
            lemma_tens(digits, digits);
            assert(2 * payout * more == 20 * (payout * full)) by (nonlinear_arith)
                requires
                    more == 10 * full,
            ;
            assert(20 * full >= limit) by (nonlinear_arith)
                requires
                    20 * (output * full) >= limit * output,
                    output > 0,
            ;
            lemma_tens(digits, 27);
            lemma_tens(27, 28);
            lemma_ten_to_28();
            assert(full <= pow(10, 27)) by (nonlinear_arith)
                requires
                    pow(10, 27) == full * pow(10, (27 - digits) as nat),
                    pow(10, (27 - digits) as nat) >= 1,
                    full >= 1,
            ;
            assert(false);
        }
        assert(digits == 28);
        assert(2 * fine * off == one * (2 * (step * off))) by (nonlinear_arith)
            requires
                fine == one * step,
        ;
        let twice = 2 * (step * off);
        assert(-(output * one) <= one * twice <= output * one) by (nonlinear_arith)
            requires
                -output <= twice <= output,
                one >= 1,
        ;
    }
}

/// The product of a fee and a proportion is off by a small part of the fee.
proof fn lemma_product(fee: int, mantissa: int, scale: nat, product: int, digits: nat)
    requires
        0 < fee,
        0 <= mantissa <= pow(10, scale),
        pow(10, scale) >= 1,
        is_held(fee * mantissa, pow(10, scale), product, digits),
    ensures
        pow(10, digits) >= 1,
        -5 * (fee * (pow(10, scale) * pow(10, digits))) <= MAX_SATOSHIS * (product * pow(10, scale)
            - fee * mantissa * pow(10, digits)) <= 5 * (fee * (pow(10, scale) * pow(10, digits))),
{
    lemma_tens(digits, digits);
    let one = pow(10, scale);
    let fine = pow(10, digits);
    let exact = fee * mantissa;
    let off = product * one - exact * fine;
    let most = fee * (one * fine);
    assert(most >= 0) by (nonlinear_arith)
        requires
            most == fee * (one * fine),
            fee > 0,
            one >= 1,
            fine >= 1,
    ;
    if off == 0 {
    } else {
        assert(20 * most >= (2 * MAX_SATOSHIS + 1) * one || 10 * most >= MAX_SATOSHIS * one) by {
            if digits == MAX_SCALE {
                lemma_ten_to_28();
                assert(10 * most >= MAX_SATOSHIS * one) by (nonlinear_arith)
                    requires
                        most == fee * (one * fine),
                        fee >= 1,
                        one >= 1,
                        10 * fine >= MAX_SATOSHIS,
                ;
            } else {
                let more = pow(10, digits + 1);
                let limit = 2 * MAX_SATOSHIS + 1;
                assert(exact <= fee * one) by (nonlinear_arith)
                    requires
                        exact == fee * mantissa,
                        mantissa <= one,
                        fee > 0,
                ;
                assert(2 * exact * more <= 20 * most) by (nonlinear_arith)
                    requires
                        exact <= fee * one,
                        more == 10 * fine,
                        fine >= 1,
                        most == fee * (one * fine),
                ;
            }
        }
        let limit = MAX_SATOSHIS as int;
        assert(limit * one <= 10 * most) by (nonlinear_arith)
            requires
                20 * most >= (2 * limit + 1) * one || 10 * most >= limit * one,
                one >= 1,
        ;
        assert(-5 * most <= limit * off <= 5 * most) by (nonlinear_arith)
            requires
                -one <= 2 * off <= one,
                limit * one <= 10 * most,
                limit > 0,
        ;
    }
}

/// A bound from above on how far a part of a fee lies below the exact part.
proof fn lemma_not_far_below(
    fee: int,
    output: int,
    payout: int,
    one: int,
    fine: int,
    mantissa: int,
    product: int,
    share: int,
)
    requires
        0 < fee,
        0 < output,
        0 <= payout,
        one >= 1,
        fine >= 1,
        20000000000000000000000000000 * (mantissa * output - payout * one) >= -(output * one),
        MAX_SATOSHIS * (product * one - fee * mantissa * fine) >= -5 * (fee * (one * fine)),
        product <= share * fine,
    ensures
        (fee * payout - share * output) * SHARE_PRECISION <= fee * output,
{
    let limit = MAX_SATOSHIS as int;
    assert(limit * (share * one) >= limit * (fee * mantissa) - 5 * (fee * one))
        by (nonlinear_arith)
        requires
            limit * (product * one - fee * mantissa * fine) >= -5 * (fee * (one * fine)),
            product <= share * fine,
            one >= 1,
            fine >= 1,
            limit > 0,
    ;
    lemma_combine(fee, output, payout, one, mantissa, share);
}

/// An inequality may be multiplied by a positive number.
proof fn lemma_times(left: int, right: int, factor: int)
    requires
        left >= right,
        factor > 0,
    ensures
        left * factor >= right * factor,
{
    assert(left * factor >= right * factor) by (nonlinear_arith)
        requires
            left >= right,
            factor > 0,
    ;
}

/// The step from the two errors to the error of the part.
proof fn lemma_combine(fee: int, output: int, payout: int, one: int, mantissa: int, share: int)
    requires
        0 < fee,
        0 < output,
        one >= 1,
        20000000000000000000000000000 * (mantissa * output - payout * one) >= -(output * one),
        MAX_SATOSHIS * (share * one) >= MAX_SATOSHIS * (fee * mantissa) - 5 * (fee * one),
    ensures
        (fee * payout - share * output) * SHARE_PRECISION <= fee * output,
{
    let limit = MAX_SATOSHIS as int;
    let fine: int = 20000000000000000000000000000;
    let short = fee * payout - share * output;
    let both = fee * output;
    // share * one * output against fee * mantissa * output
    let left = limit * (share * one);
    let right = limit * (fee * mantissa) - 5 * (fee * one);
    lemma_times(left, right, output);
    assert(left * output == limit * (share * one * output)) by (nonlinear_arith)
        requires
            left == limit * (share * one),
    ;
    assert(right * output == limit * (fee * (mantissa * output)) - 5 * (both * one))
        by (nonlinear_arith)
        requires
            right == limit * (fee * mantissa) - 5 * (fee * one),
            both == fee * output,
    ;
    // fee * mantissa * output against fee * payout * one
    let near = fine * (mantissa * output - payout * one);
    lemma_times(near, -(output * one), fee);
    assert(near * fee == fine * (fee * (mantissa * output)) - fine * (fee * payout * one))
        by (nonlinear_arith)
        requires
            near == fine * (mantissa * output - payout * one),
    ;
    assert(-(output * one) * fee == -(both * one)) by (nonlinear_arith)
        requires
            both == fee * output,
    ;
    let x = share * one * output;
    let y = fee * (mantissa * output);
    let z = fee * payout * one;
    let w = both * one;
    assert(79228162514264337593543950335 * x >= 79228162514264337593543950335 * y - 5 * w);
    assert(20000000000000000000000000000 * y >= 20000000000000000000000000000 * z - w);
    assert(short * one == z - x) by (nonlinear_arith)
        requires
            short == fee * payout - share * output,
            z == fee * payout * one,
            x == share * one * output,
    ;
    assert(w >= 0) by (nonlinear_arith)
        requires
            w == both * one,
            both == fee * output,
            fee > 0,
            output > 0,
            one >= 1,
    ;
    assert((z - x) * 8000000000000000000000000000 <= w);
    assert(short * SHARE_PRECISION <= both) by (nonlinear_arith)
        requires
            (short * one) * 8000000000000000000000000000 <= both * one,
            one >= 1,
            SHARE_PRECISION == 8000000000000000000000000000,
    ;
}

/// How far a part of a fee can be from the exact part.
pub proof fn lemma_share_is_close(total: WalletTotalsView, payout: int, share: int)
    requires
        is_fee_share(total, payout, share),
        0 <= payout <= total.output_satoshis,
        0 < total.output_satoshis,
        0 <= total.fee_satoshis,
    ensures
        0 <= share,
        payout == 0 ==> share == 0,
        (total.fee_satoshis * payout - share * total.output_satoshis) * SHARE_PRECISION
            <= total.fee_satoshis * total.output_satoshis,
        ((share - 1) * total.output_satoshis - total.fee_satoshis * payout) * SHARE_PRECISION
            <= total.fee_satoshis * total.output_satoshis,
{
    let fee = total.fee_satoshis;
    let output = total.output_satoshis;
    let (mantissa, scale) = decimal_quotient(payout, output);
    let (product, fine_digits) = decimal_product(fee, mantissa, scale)->0;
    let digits = choose|digits: nat|
        scale <= digits && #[trigger] is_held(
            payout,
            output,
            mantissa * pow(10, (digits - scale) as nat),
            digits,
        );
    lemma_proportion(payout, output, mantissa, scale, digits);
    lemma_round_bounds(product, fine_digits);
    lemma_ten_to_28();
    let one = pow(10, scale);
    let fine = pow(10, fine_digits);
    assert(fee * output >= 0) by (nonlinear_arith)
        requires
            fee >= 0,
            output > 0,
    ;
    assert(share >= 0) by (nonlinear_arith)
        requires
            product <= share * fine,
            product >= 0,
            fine >= 1,
    ;
    if payout == 0 {
        assert(mantissa == 0) by {
            lemma_tens(scale, digits);
            let step = pow(10, (digits - scale) as nat);
            let full = pow(10, digits);
            let held = mantissa * step;
            assert(held == 0) by (nonlinear_arith)
                requires
                    held >= 0,
                    2 * (held * output - 0 * full) <= output,
                    output > 0,
            ;
            assert(mantissa == 0) by (nonlinear_arith)
                requires
                    mantissa * step == 0,
                    step >= 1,
            ;
        }
    }
    if fee == 0 || mantissa == 0 {
        assert(fee * mantissa == 0) by (nonlinear_arith)
            requires
                fee == 0 || mantissa == 0,
        ;
        assert(product == 0) by (nonlinear_arith)
            requires
                product >= 0,
                2 * (product * one - 0 * fine) <= one,
                one >= 1,
        ;
        assert(share == 0) by (nonlinear_arith)
            requires
                (share - 1) * fine < 0,
                share >= 0,
                fine >= 1,
        ;
    }
    if fee == 0 {
        assert(fee * payout == 0) by (nonlinear_arith)
            requires
                fee == 0,
        ;
        assert((share - 1) * output <= 0 && share * output == 0) by (nonlinear_arith)
            requires
                share == 0,
                output > 0,
        ;
        assert(fee * output == 0) by (nonlinear_arith)
            requires
                fee == 0,
        ;
    } else {
        lemma_product(fee, mantissa, scale, product, fine_digits);
        lemma_not_far_below(fee, output, payout, one, fine, mantissa, product, share);
        lemma_not_far_above(fee, output, payout, one, fine, mantissa, product, share);
    }
}

/// A bound from above on how far a part of a fee lies above the exact part.
proof fn lemma_not_far_above(
    fee: int,
    output: int,
    payout: int,
    one: int,
    fine: int,
    mantissa: int,
    product: int,
    share: int,
)
    requires
        0 < fee,
        0 < output,
        one >= 1,
        fine >= 1,
        20000000000000000000000000000 * (mantissa * output - payout * one) <= output * one,
        MAX_SATOSHIS * (product * one - fee * mantissa * fine) <= 5 * (fee * (one * fine)),
        (share - 1) * fine < product,
    ensures
        ((share - 1) * output - fee * payout) * SHARE_PRECISION <= fee * output,
{
    let limit = MAX_SATOSHIS as int;
    let below = share - 1;
    assert(limit * (below * one) <= limit * (fee * mantissa) + 5 * (fee * one))
        by (nonlinear_arith)
        requires
            limit * (product * one - fee * mantissa * fine) <= 5 * (fee * (one * fine)),
            below * fine <= product,
            one >= 1,
            fine >= 1,
            limit > 0,
    ;
    assert(limit * ((-below) * one) >= limit * (fee * (-mantissa)) - 5 * (fee * one))
        by (nonlinear_arith)
        requires
            limit * (below * one) <= limit * (fee * mantissa) + 5 * (fee * one),
    ;
    let off = mantissa * output - payout * one;
    let off_back = (-mantissa) * output - (-payout) * one;
    assert(off_back == -off) by (nonlinear_arith)
        requires
            off == mantissa * output - payout * one,
            off_back == (-mantissa) * output - (-payout) * one,
    ;
    assert(20000000000000000000000000000 * off_back >= -(output * one));
    lemma_combine(fee, output, -payout, one, -mantissa, -below);
    assert(fee * (-payout) - (-below) * output == below * output - fee * payout)
        by (nonlinear_arith);
}

/// A larger payout bears no smaller a part of the fee.
pub proof fn law_larger_payouts_bear_no_less(
    total: WalletTotalsView,
    payout1: int,
    share1: int,
    payout2: int,
    share2: int,
)
    requires
        is_fee_share(total, payout1, share1),
        is_fee_share(total, payout2, share2),
        0 <= payout1 <= payout2,
        0 < total.output_satoshis,
        0 <= total.fee_satoshis,
    ensures
        share1 <= share2,
{
    if payout1 < payout2 {
        let fee = total.fee_satoshis;
        let output = total.output_satoshis;
        let (m1, s1) = decimal_quotient(payout1, output);
        let (m2, s2) = decimal_quotient(payout2, output);
        lemma_proportions_grow(payout1, m1, s1, payout2, m2, s2, output);
        let one1 = pow(10, s1);
        let one2 = pow(10, s2);
        let (p1, d1) = decimal_product(fee, m1, s1)->0;
        let (p2, d2) = decimal_product(fee, m2, s2)->0;
        assert((fee * m1) * one2 <= (fee * m2) * one1) by (nonlinear_arith)
            requires
                m1 * one2 <= m2 * one1,
                fee >= 0,
        ;
        assert(fee * m1 >= 0) by (nonlinear_arith)
            requires
                fee >= 0,
                m1 >= 0,
        ;
        lemma_tens(s1, s1);
        lemma_tens(s2, s2);
        lemma_held_grows(fee * m1, one1, p1, d1, fee * m2, one2, p2, d2);
        lemma_round_grows(p1, d1, p2, d2);
    }
}

/// A larger payout is no smaller a proportion of the output.
proof fn lemma_proportions_grow(
    payout1: int,
    m1: int,
    s1: nat,
    payout2: int,
    m2: int,
    s2: nat,
    output: int,
)
    requires
        0 <= payout1 < payout2,
        0 < output,
        is_held_shortened(payout1, output, m1, s1),
        is_held_shortened(payout2, output, m2, s2),
    ensures
        m1 * pow(10, s2) <= m2 * pow(10, s1),
{
    let d1 = choose|digits: nat|
        s1 <= digits && #[trigger] is_held(
            payout1,
            output,
            m1 * pow(10, (digits - s1) as nat),
            digits,
        );
    let d2 = choose|digits: nat|
        s2 <= digits && #[trigger] is_held(
            payout2,
            output,
            m2 * pow(10, (digits - s2) as nat),
            digits,
        );
    lemma_tens(s1, d1);
    lemma_tens(s2, d2);
    let step1 = pow(10, (d1 - s1) as nat);
    let step2 = pow(10, (d2 - s2) as nat);
    assert(payout1 * output < payout2 * output) by (nonlinear_arith)
        requires
            payout1 < payout2,
            output > 0,
    ;
    lemma_held_grows(payout1, output, m1 * step1, d1, payout2, output, m2 * step2, d2);
    let one1 = pow(10, s1);
    let one2 = pow(10, s2);
    let steps = step1 * step2;
    assert((m1 * one2) * steps <= (m2 * one1) * steps) by (nonlinear_arith)
        requires
            (m1 * step1) * (one2 * step2) <= (m2 * step2) * (one1 * step1),
            steps == step1 * step2,
    ;
    assert(steps >= 1) by (nonlinear_arith)
        requires
            steps == step1 * step2,
            step1 >= 1,
            step2 >= 1,
    ;
    assert(m1 * one2 <= m2 * one1) by (nonlinear_arith)
        requires
            (m1 * one2) * steps <= (m2 * one1) * steps,
            steps >= 1,
    ;
}

/// The part of a fee that falls to a payout lies less than one satoshi below and
/// less than two satoshis above the exact part, for every fee below
/// [`SHARE_PRECISION`].
pub proof fn law_shares_are_close(total: WalletTotalsView, payout: int, share: int)
    requires
        is_fee_share(total, payout, share),
        0 <= payout <= total.output_satoshis,
        0 < total.output_satoshis,
        0 <= total.fee_satoshis < SHARE_PRECISION,
    ensures
        (share + 1) * total.output_satoshis > total.fee_satoshis * payout,
        (share - 2) * total.output_satoshis < total.fee_satoshis * payout,
{
    lemma_share_is_close(total, payout, share);
    let fee = total.fee_satoshis;
    let output = total.output_satoshis;
    let limit = SHARE_PRECISION as int;
    let exact = fee * payout;
    assert(fee * output < limit * output) by (nonlinear_arith)
        requires
            fee < limit,
            output > 0,
    ;
    assert((share + 1) * output > exact) by (nonlinear_arith)
        requires
            (exact - share * output) * limit <= fee * output,
            fee * output < limit * output,
            limit > 0,
    ;
    assert((share - 2) * output < exact) by (nonlinear_arith)
        requires
            ((share - 1) * output - exact) * limit <= fee * output,
            fee * output < limit * output,
            limit > 0,
    ;
}

/// What the first `n` amounts come to.
pub open spec fn sum_amounts(amounts: Seq<int>, n: nat) -> int
    decreases n,
{
    if n == 0 {
        0
    } else {
        sum_amounts(amounts, (n - 1) as nat) + amounts[n - 1]
    }
}

/// The first `n` shares fall short of the exact parts by no more than their number,
/// payouts of nothing left out, allows. That number is `counted`.
proof fn lemma_shares_fall_short(
    total: WalletTotalsView,
    payouts: Seq<int>,
    shares: Seq<int>,
    n: nat,
) -> (counted: int)
    requires
        n <= payouts.len(),
        payouts.len() == shares.len(),
        0 < total.output_satoshis,
        0 <= total.fee_satoshis,
        forall|i: int|
            0 <= i < payouts.len() ==> 0 <= #[trigger] payouts[i] <= total.output_satoshis
                && is_fee_share(total, payouts[i], shares[i]),
    ensures
        0 <= counted <= n,
        counted <= sum_amounts(payouts, n),
        (total.fee_satoshis * sum_amounts(payouts, n) - sum_amounts(shares, n)
            * total.output_satoshis) * SHARE_PRECISION <= counted * (total.fee_satoshis
            * total.output_satoshis),
    decreases n,
{
    let fee = total.fee_satoshis;
    let output = total.output_satoshis;
    if n == 0 {
        assert(fee * 0 == 0 && 0 * output == 0) by (nonlinear_arith);
        0
    } else {
        let before = lemma_shares_fall_short(total, payouts, shares, (n - 1) as nat);
        let payout = payouts[n - 1];
        let share = shares[n - 1];
        lemma_share_is_close(total, payout, share);
        let a = sum_amounts(payouts, (n - 1) as nat);
        let b = sum_amounts(shares, (n - 1) as nat);
        let both = fee * output;
        let limit = SHARE_PRECISION as int;
        let counted = if payout == 0 {
            before
        } else {
            before + 1
        };
        assert((fee * (a + payout) - (b + share) * output) * limit == (fee * a - b * output) * limit
            + (fee * payout - share * output) * limit) by (nonlinear_arith);
        assert(payout == 0 ==> (fee * payout - share * output) * limit == 0) by (nonlinear_arith)
            requires
                payout == 0 ==> share == 0,
        ;
        assert((before + 1) * both == before * both + both) by (nonlinear_arith);
        counted
    }
}

/// The parts of a fee that fall to payouts which come to the whole output cover the
/// fee, as long as the fee times the number of payouts, or the fee times the output,
/// is below [`SHARE_PRECISION`].
pub proof fn law_shares_cover_the_fee(
    total: WalletTotalsView,
    payouts: Seq<int>,
    shares: Seq<int>,
)
    requires
        payouts.len() == shares.len(),
        0 < total.output_satoshis,
        0 <= total.fee_satoshis,
        total.fee_satoshis * payouts.len() < SHARE_PRECISION || total.fee_satoshis
            * total.output_satoshis < SHARE_PRECISION,
        sum_amounts(payouts, payouts.len()) == total.output_satoshis,
        forall|i: int|
            0 <= i < payouts.len() ==> 0 <= #[trigger] payouts[i] && is_fee_share(
                total,
                payouts[i],
                shares[i],
            ),
    ensures
        sum_amounts(shares, shares.len()) >= total.fee_satoshis,
{
    let fee = total.fee_satoshis;
    let output = total.output_satoshis;
    let count = payouts.len();
    assert forall|i: int| 0 <= i < count implies 0 <= #[trigger] payouts[i] <= output by {
        lemma_part_of_sum(payouts, i, count);
    }
    let counted = lemma_shares_fall_short(total, payouts, shares, count);
    let sum = sum_amounts(shares, count);
    let limit = SHARE_PRECISION as int;
    assert(fee * counted < limit) by (nonlinear_arith)
        requires
            fee * count < limit || fee * output < limit,
            0 <= counted <= count,
            counted <= output,
            fee >= 0,
    ;
    if sum < fee {
        assert((fee * output - sum * output) * limit >= output * limit) by (nonlinear_arith)
            requires
                sum + 1 <= fee,
                output > 0,
                limit > 0,
        ;
        assert(counted * (fee * output) == (fee * counted) * output) by (nonlinear_arith);
        assert((fee * counted) * output < limit * output) by (nonlinear_arith)
            requires
                fee * counted < limit,
                output > 0,
        ;
        assert(output * limit == limit * output) by (nonlinear_arith);
    }
}

/// No amount is more than a sum that it is part of.
proof fn lemma_part_of_sum(amounts: Seq<int>, i: int, n: nat)
    requires
        0 <= i < n <= amounts.len(),
        forall|j: int| 0 <= j < n ==> 0 <= #[trigger] amounts[j],
    ensures
        amounts[i] <= sum_amounts(amounts, n),
        0 <= sum_amounts(amounts, n),
    decreases n,
{
    if n == 1 {
        assert(sum_amounts(amounts, 0) == 0);
    } else if i < n - 1 {
        lemma_part_of_sum(amounts, i, (n - 1) as nat);
    } else {
        lemma_part_of_sum(amounts, 0, (n - 1) as nat);
    }
}

/// The part of a fee that falls to a payout is the fee times the quotient of the payout by
/// what the wallet pays out, taken to the next whole satoshi away from zero, for amounts on
/// either side of zero; there is none exactly where the product overflows.
pub proof fn law_shares_are_rounded_products(total: WalletTotalsView, payout: int)
    ensures
        ({
            let (part, scale) = decimal_quotient(payout, total.output_satoshis);
            let product = decimal_product(total.fee_satoshis, part, scale);
            &&& fee_share(total, payout) is Some <==> product is Some
            &&& product matches Some((mantissa, digits)) ==> {
                let share = fee_share(total, payout)->0;
                &&& mantissa > 0 ==> (share - 1) * pow(10, digits) < mantissa <= share * pow(
                    10,
                    digits,
                )
                &&& mantissa == 0 ==> share == 0
                &&& mantissa < 0 ==> share * pow(10, digits) <= mantissa < (share + 1) * pow(
                    10,
                    digits,
                )
            }
        }),
{
    let (part, scale) = decimal_quotient(payout, total.output_satoshis);
    if let Some((mantissa, digits)) = decimal_product(total.fee_satoshis, part, scale) {
        let one = pow(10, digits);
        let share = fee_share(total, payout)->0;
        vstd::arithmetic::power::lemma_pow_positive(10, digits);
        let size = if mantissa >= 0 {
            mantissa
        } else {
            -mantissa
        };
        let rounded = (size + one - 1) / one;
        assert((rounded - 1) * one < size <= rounded * one) by (nonlinear_arith)
            requires
                one >= 1,
                size >= 0,
                rounded == (size + one - 1) / one,
        ;
        if mantissa == 0 {
            assert(rounded == 0) by (nonlinear_arith)
                requires
                    one >= 1,
                    rounded == (0 + one - 1) / one,
            ;
        }
        if mantissa < 0 {
            assert(share == -rounded);
            assert(share * one == -(rounded * one)) by (nonlinear_arith)
                requires
                    share == -rounded,
            ;
            assert((share + 1) * one == -((rounded - 1) * one)) by (nonlinear_arith)
                requires
                    share == -rounded,
            ;
        }
    }
}

/// The part of a fee that is handed out is told of a wallet of the transaction and of no
/// other, and is that of the fee and the payouts of this wallet.
pub proof fn law_fees_are_told_of_wallets(
    build: FinishedPsbtBuild,
    wallet: WalletId,
    payout: Satoshis,
    told: Option<Satoshis>,
)
    requires
        call_ensures(FinishedPsbtBuild::proportional_fee, (&build, &wallet, payout), told),
    ensures
        told is Some <==> build.wallet_totals@.contains_key(wallet),
        told matches Some(share) ==> {
            let total = build.wallet_totals@[wallet];
            let (part, scale) = decimal_quotient(payout@, total.output_satoshis@);
            &&& decimal_product(total.fee_satoshis@, part, scale) is Some
            &&& ({
                let (mantissa, digits) = decimal_product(total.fee_satoshis@, part, scale)->0;
                &&& mantissa > 0 ==> (share@ - 1) * pow(10, digits) < mantissa <= share@ * pow(
                    10,
                    digits,
                )
                &&& mantissa == 0 ==> share@ == 0
                &&& mantissa < 0 ==> share@ * pow(10, digits) <= mantissa < (share@ + 1) * pow(
                    10,
                    digits,
                )
            })
            &&& payout@ == 0 ==> share@ == 0
            &&& payout@ == total.output_satoshis@ ==> share@ == total.fee_satoshis@
            &&& 0 <= payout@ <= total.output_satoshis@ && 0 <= total.fee_satoshis@ ==> 0 <= share@
                <= total.fee_satoshis@
        },
{
    if told is Some {
        law_shares_are_rounded_products(build@.wallet_totals[wallet], payout@);
    }
}

/// Asking with care gives the same part, and says why there is none: the wallet pays
/// nothing out, or the product overflows, which never happens for a payout that is a part
/// of what the wallet pays out.
pub proof fn law_fees_are_told_with_care(
    build: FinishedPsbtBuild,
    wallet: WalletId,
    payout: Satoshis,
    told: Result<Option<Satoshis>, FeeShareError>,
)
    requires
        call_ensures(
            FinishedPsbtBuild::checked_proportional_fee,
            (&build, &wallet, payout),
            told,
        ),
    ensures
        !build.wallet_totals@.contains_key(wallet) ==> told == Ok::<_, FeeShareError>(
            None::<Satoshis>,
        ),
        build.wallet_totals@.contains_key(wallet) ==> {
            let total = build.wallet_totals@[wallet];
            let (part, scale) = decimal_quotient(payout@, total.output_satoshis@);
            let product = decimal_product(total.fee_satoshis@, part, scale);
            &&& told == Err::<Option<Satoshis>, _>(FeeShareError::NoOutput)
                <==> total.output_satoshis@ == 0
            &&& told == Err::<Option<Satoshis>, _>(FeeShareError::Overflow)
                <==> total.output_satoshis@ != 0 && product is None
            &&& total.output_satoshis@ != 0 && 0 <= payout@ <= total.output_satoshis@ && 0
                <= total.fee_satoshis@ ==> told is Ok
            &&& told is Ok ==> told->Ok_0 is Some && fee_share(total@, payout@) == Some(
                told->Ok_0->0@,
            )
        },
{
    if build.wallet_totals@.contains_key(wallet) {
        assert(build@.wallet_totals[wallet] == build.wallet_totals@[wallet]@);
        law_shares_are_rounded_products(build@.wallet_totals[wallet], payout@);
    }
}

/// A fee in whole satoshis is the next one away from zero.
pub proof fn law_whole_fees(fee: DecimalParts, whole: Satoshis)
    requires
        call_ensures(whole_fee, (fee,), whole),
    ensures
        fee.mantissa > 0 ==> (whole@ - 1) * pow(10, fee.scale as nat) < fee.mantissa <= whole@
            * pow(10, fee.scale as nat),
        fee.mantissa == 0 ==> whole@ == 0,
        fee.mantissa < 0 ==> whole@ * pow(10, fee.scale as nat) <= fee.mantissa < (whole@ + 1)
            * pow(10, fee.scale as nat),
{
    let one = pow(10, fee.scale as nat);
    vstd::arithmetic::power::lemma_pow_positive(10, fee.scale as nat);
    let size = if fee.mantissa >= 0 {
        fee.mantissa as int
    } else {
        -fee.mantissa
    };
    let rounded = (size + one - 1) / one;
    assert((rounded - 1) * one < size <= rounded * one) by (nonlinear_arith)
        requires
            one >= 1,
            size >= 0,
            rounded == (size + one - 1) / one,
    ;
    if fee.mantissa == 0 {
        assert(rounded == 0) by (nonlinear_arith)
            requires
                one >= 1,
                rounded == (0 + one - 1) / one,
        ;
    }
    if fee.mantissa < 0 {
        assert(whole@ == -rounded);
        assert(whole@ * one == -(rounded * one)) by (nonlinear_arith)
            requires
                whole@ == -rounded,
        ;
        assert((whole@ + 1) * one == -((rounded - 1) * one)) by (nonlinear_arith)
            requires
                whole@ == -rounded,
        ;
    }
}

} // verus!
