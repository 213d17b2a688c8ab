use bria_wallet::primitives::MAX_SATOSHIS;
use rust_decimal::Decimal;

/// A number of 256 bits: the upper and the lower half.
#[derive(Clone, Copy, PartialEq, Eq, PartialOrd, Ord, Debug)]
struct Wide(u128, u128);

fn times(a: u128, b: u128) -> Wide {
    let mask = u64::MAX as u128;
    let (a1, a0) = (a >> 64, a & mask);
    let (b1, b0) = (b >> 64, b & mask);
    let low = a0 * b0;
    let mid1 = a1 * b0 + (low >> 64);
    let mid2 = a0 * b1 + (mid1 & mask);
    Wide(a1 * b1 + (mid1 >> 64) + (mid2 >> 64), (mid2 << 64) | (low & mask))
}

fn distance(a: Wide, b: Wide) -> Wide {
    let (more, less) = if a > b { (a, b) } else { (b, a) };
    let (low, borrow) = more.1.overflowing_sub(less.1);
    Wide(more.0 - less.0 - borrow as u128, low)
}

fn double(a: Wide) -> Wide {
    Wide((a.0 << 1) | (a.1 >> 127), a.1 << 1)
}

/// `mantissa / 10^digits` is nearest to `num / den`, and as fine as can be.
fn assert_held(num: u128, den: u128, mantissa: u128, digits: u32) {
    assert!(digits <= 28 && mantissa <= MAX_SATOSHIS as u128);
    let exact = times(num, 10u128.pow(digits));
    let held = times(mantissa, den);
    let off = double(distance(held, exact));
    assert!(off <= Wide(0, den), "{num} {den} {mantissa} {digits}");
    if digits < 28 && held != exact {
        let finer = times(num, 10u128.pow(digits + 1));
        let limit = times(2 * MAX_SATOSHIS as u128 + 1, den);
        assert!(double(finer) >= limit, "{num} {den} {mantissa} {digits}");
    }
}

struct Numbers(u64);

impl Numbers {
    fn next(&mut self) -> u64 {
        self.0 = self.0.wrapping_mul(6364136223846793005).wrapping_add(1442695040888963407);
        let x = self.0 ^ (self.0 >> 29);
        x.wrapping_mul(0xbf58476d1ce4e5b9) ^ (x >> 32)
    }

    /// A number of up to 96 bits, of any size.
    fn amount(&mut self) -> u128 {
        let wide = ((self.next() as u128) << 64) | self.next() as u128;
        let bits = 1 + self.next() % 96;
        let number = (wide >> (128 - bits)) & MAX_SATOSHIS as u128;
        match self.next() % 8 {
            0 => 10u128.pow((self.next() % 29) as u32),
            1 => 5u128.pow((self.next() % 41) as u32),
            2 => MAX_SATOSHIS as u128 - (number & 0xff),
            3 => 1u128 << (self.next() % 96),
            _ => number,
        }
    }
}

fn decimal(mantissa: u128, scale: u32) -> Decimal {
    Decimal::from_i128_with_scale(mantissa as i128, scale)
}

#[test]
fn quotients_are_rounded_to_the_nearest() {
    let mut numbers = Numbers(1);
    let mut inexact = 0;
    for _ in 0..200_000 {
        let (dividend, divisor) = (numbers.amount(), numbers.amount());
        if divisor == 0 {
            continue;
        }
        let quotient = decimal(dividend, 0) / decimal(divisor, 0);
        let (mantissa, scale) = (quotient.mantissa() as u128, quotient.scale());
        // The zeros at the end are put back, as many as can be held.
        let held = |digits: u32| mantissa.checked_mul(10u128.pow(digits - scale));
        let mut digits = scale;
        while digits < 28 && held(digits + 1).is_some_and(|m| m <= MAX_SATOSHIS as u128) {
            digits += 1;
        }
        inexact += (dividend % divisor != 0) as u32;
        assert_held(dividend, divisor, held(digits).unwrap(), digits);
        if dividend % divisor == 0 {
            assert_eq!((mantissa, scale), (dividend / divisor, 0));
        }
        if dividend <= divisor {
            assert!(mantissa <= 10u128.pow(scale));
        }
    }
    assert!(inexact > 100_000);
}

#[test]
fn products_are_rounded_to_the_nearest() {
    let mut numbers = Numbers(2);
    let mut rounded = 0;
    for _ in 0..200_000 {
        let (whole, factor) = (numbers.amount(), numbers.amount());
        let scale = (numbers.next() % 29) as u32;
        let one = 10u128.pow(scale);
        let fits = times(whole, factor) <= Wide(0, MAX_SATOSHIS as u128);
        match decimal(whole, 0).checked_mul(decimal(factor, scale)) {
            Some(product) => {
                let (mantissa, digits) = (product.mantissa() as u128, product.scale());
                if fits {
                    let zero = whole * factor == 0;
                    assert_eq!((mantissa, digits), (whole * factor, if zero { 0 } else { scale }));
                }
                rounded += !fits as u32;
                assert!(digits <= scale);
                // Both sides are cut by 10^digits.
                let cut = one / 10u128.pow(digits);
                let exact = times(whole, factor);
                let held = times(mantissa, cut);
                let off = double(distance(held, exact));
                assert!(off <= Wide(0, cut), "{whole} {factor} {scale}");
                if off == Wide(0, cut) {
                    assert_eq!(mantissa % 2, 0, "{whole} {factor} {scale}");
                }
                if held != exact {
                    let limit = times(2 * MAX_SATOSHIS as u128 + 1, cut / 10);
                    assert!(double(exact) >= limit, "{whole} {factor} {scale}");
                }
                if factor <= one {
                    assert!(times(mantissa, 1) <= times(whole, 10u128.pow(digits)));
                }
            }
            None => assert!(!fits && factor > one),
        }
    }
    assert!(rounded > 20_000);
}
