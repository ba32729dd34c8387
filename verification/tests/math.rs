use chronos_market::errors::MarketError;
use chronos_market::fixed_point::{safe_mul_div, SCALE};
use chronos_market::pricing::{cost_to_buy, proceeds_from_sell};

#[test]
fn mul_div_small_exact() {
    assert_eq!(safe_mul_div(6, 4, 3), Ok(8));
    assert_eq!(safe_mul_div(7, 5, 2), Ok(17)); // 35/2 floored
    assert_eq!(safe_mul_div(0, 123, 7), Ok(0));
    assert_eq!(safe_mul_div(123, 0, 7), Ok(0));
}

#[test]
fn mul_div_exact_when_product_overflows() {
    // a*b = 2^129 overflows u128, but the decomposed path is exact.
    let a: u128 = 1 << 127;
    assert_eq!(safe_mul_div(a, 4, 8), Ok(1 << 126));
    // 10^30 + 7 times 10^9, divided by 10^15: the floored quotient is 10^24.
    let a2: u128 = 1_000_000_000_000_000_000_000_000_000_000 + 7;
    let expected: u128 = 1_000_000_000_000_000_000_000_000;
    assert_eq!(safe_mul_div(a2, 1_000_000_000, 1_000_000_000_000_000), Ok(expected));
    // remainder term contributes: (2^127 + 3) * 6 / 4
    let a3: u128 = (1 << 127) + 3;
    let expected3: u128 = (1 << 126) * 3 + 4; // floor((2^127+3)*6/4) = 3*2^126 + 4
    assert_eq!(safe_mul_div(a3, 6, 4), Ok(expected3));
}

#[test]
fn mul_div_division_by_zero() {
    assert_eq!(safe_mul_div(5, 5, 0), Err(MarketError::DivisionByZero));
    assert_eq!(safe_mul_div(0, 0, 0), Err(MarketError::DivisionByZero));
}

#[test]
fn mul_div_overflow_is_reported() {
    // The quotient itself is out of range: (a/c)*b cannot be represented.
    assert_eq!(safe_mul_div(u128::MAX, u128::MAX, 1), Err(MarketError::ArithmeticOverflow));
    assert_eq!(safe_mul_div(u128::MAX, 2, 1), Err(MarketError::ArithmeticOverflow));
}

#[test]
fn mul_div_third_decomposition_exact() {
    // a*b and (a%c)*b both overflow, but splitting b as well stays exact:
    // (3.5*10^20 * 4*10^20) / 10^20 = 1.4*10^21.
    let c: u128 = 100_000_000_000_000_000_000;
    let a: u128 = 3 * c + 50_000_000_000_000_000_000;
    let b: u128 = 4 * c;
    assert_eq!(safe_mul_div(a, b, c), Ok(1_400_000_000_000_000_000_000));
}

#[test]
fn mul_div_last_resort_approximation() {
    // Both decomposition products overflow, but the scaled fallback answers:
    // a = 7*10^20, b = 11.5*10^20, c = 4*10^20. The fallback computes
    // term1 = 11.5*10^20, sub1 = 6*10^20, and sub2 from the scaled factors
    // (3*10^11 * 3.5*10^11) / (c / 10^18) = 2.625*10^20 — in total
    // 2.0125*10^21, here equal to the true quotient.
    let c: u128 = 400_000_000_000_000_000_000;
    let a: u128 = c + 300_000_000_000_000_000_000;
    let b: u128 = 2 * c + 350_000_000_000_000_000_000;
    assert_eq!(safe_mul_div(a, b, c), Ok(2_012_500_000_000_000_000_000));
}

#[test]
fn mul_div_gives_up_past_the_ladder() {
    // Here the true quotient fits the domain, but every decomposed product
    // overflows and so does the scaled fallback: the ladder reports overflow
    // rather than inventing a value.
    let c: u128 = 1 << 100;
    let a: u128 = c + (c - 1);
    let b: u128 = c - 1;
    assert_eq!(safe_mul_div(a, b, c), Err(MarketError::ArithmeticOverflow));
}

#[test]
fn mul_div_identity_scale() {
    // x * SCALE / SCALE round-trips exactly, even for values where x * SCALE
    // overflows.
    let x: u128 = 123_456_789_012_345_678_901_234_567_890;
    assert_eq!(safe_mul_div(x, SCALE, SCALE), Ok(x));
}

#[test]
fn cost_boundary_insufficient_liquidity() {
    // Buying every last share of the pool must be refused.
    assert_eq!(cost_to_buy(100, 100, 100), Err(MarketError::InsufficientLiquidity));
    assert_eq!(cost_to_buy(100, 100, 150), Err(MarketError::InsufficientLiquidity));
    assert!(cost_to_buy(100, 100, 99).is_ok());
}

#[test]
fn cost_formula_exact_value() {
    // cost = 500 * 100 / (500 - 100) = 125, exactly.
    assert_eq!(cost_to_buy(500, 500, 100), Ok(125));
    // a rounding case: 500 * 3 / 497 = 3 (floored from 3.018...)
    assert_eq!(cost_to_buy(500, 500, 3), Ok(3));
}

#[test]
fn proceeds_formula_exact_value() {
    // proceeds = 625 * 100 / (400 + 100) = 125: the round trip of the buy.
    assert_eq!(proceeds_from_sell(400, 625, 100), Ok(125));
    // selling into a balanced pool: 500 * 100 / 600 = 83 (floored).
    assert_eq!(proceeds_from_sell(500, 500, 100), Ok(83));
}

#[test]
fn round_trip_never_gains() {
    // Buy s shares, then sell them back at the updated pools: the proceeds
    // never exceed the cost.
    for s in [1u128, 7, 100, 499] {
        let (yes, no) = (500u128, 700u128);
        let cost = cost_to_buy(no, yes, s).unwrap();
        let proceeds = proceeds_from_sell(yes - s, no + cost, s).unwrap();
        assert!(proceeds <= cost, "s={s}: proceeds {proceeds} > cost {cost}");
    }
}

#[test]
fn constant_product_moves_only_by_rounding() {
    // 500*500 = 250000; buying 100 costs 125 and restores the product
    // exactly; buying 3 costs 3 and loses exactly the division remainder 9.
    let cost = cost_to_buy(500, 500, 100).unwrap();
    assert_eq!((500 + cost) * (500 - 100), 500 * 500);
    let cost3 = cost_to_buy(500, 500, 3).unwrap();
    assert_eq!((500 + cost3) * (500 - 3), 500 * 500 - 9);
}
