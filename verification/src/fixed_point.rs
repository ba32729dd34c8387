//! Overflow-safe fixed-point arithmetic: `safe_mul_div` computes
//! `⌊(a * b) / c⌋` over `u128` even when the intermediate product `a * b`
//! exceeds `u128::MAX`, by decomposing `a = q*c + r` (and, if needed,
//! `b = (b/c)*c + b%c`) so that every intermediate product that matters
//! stays in range. A last-resort scaled approximation covers the inputs
//! where even the decomposed products overflow.

use vstd::prelude::*;
use vstd::arithmetic::div_mod::*;
use crate::errors::MarketError;

verus! {

/// One unit at attos granularity: fixed-point fractions carry 18 decimal
/// digits, so this constant stands for the value 1.
pub const SCALE: u128 = 1_000_000_000_000_000_000;

/// Scale factor applied by the last-resort approximation inside
/// `safe_mul_div` when even the decomposed products overflow.
pub const APPROX_SCALE: u128 = 1_000_000_000;

/// The exact floored quotient `⌊(a * b) / c⌋` over the mathematical integers.
pub open spec fn mul_div_quot(a: int, b: int, c: int) -> int {
    (a * b) / c
}

/// The inputs on which `safe_mul_div` is exact: the true quotient fits the
/// domain and at least one of the decomposition ladder's product terms fits,
/// so no approximating fallback is reached.
pub open spec fn mul_div_exact(a: u128, b: u128, c: u128) -> bool {
    &&& c > 0
    &&& mul_div_quot(a as int, b as int, c as int) <= u128::MAX
    &&& ((a * b <= u128::MAX) || ((a % c) * b <= u128::MAX) || ((a % c) * (b % c)
        <= u128::MAX))
}

/// Splitting the dividend along `a = (a/c)*c + a%c` splits the quotient:
/// `⌊a*b/c⌋ == (a/c)*b + ⌊(a%c)*b/c⌋`.
pub proof fn lemma_mul_div_decompose(a: int, b: int, c: int)
    requires
        0 < c,
        0 <= a,
        0 <= b,
    ensures
        0 <= (a / c) * b,
        0 <= ((a % c) * b) / c,
        mul_div_quot(a, b, c) == (a / c) * b + ((a % c) * b) / c,
{
    let q = a / c;
    let r = a % c;
    lemma_fundamental_div_mod(a, c);
    lemma_mod_division_less_than_divisor(a, c);
    lemma_div_pos_is_pos(a, c);
    assert(0 <= q * b) by (nonlinear_arith)
        requires
            0 <= q,
            0 <= b,
    ;
    assert(0 <= r * b) by (nonlinear_arith)
        requires
            0 <= r,
            0 <= b,
    ;
    lemma_div_pos_is_pos(r * b, c);
    assert(a * b == r * b + (q * b) * c) by (nonlinear_arith)
        requires
            a == c * q + r,
    ;
    lemma_hoist_over_denominator(r * b, q * b, c as nat);
}

/// Growing the left factor cannot shrink the floored quotient.
pub proof fn lemma_mul_div_quot_ordered(a1: int, a2: int, b: int, c: int)
    requires
        0 < c,
        0 <= a1 <= a2,
        0 <= b,
    ensures
        mul_div_quot(a1, b, c) <= mul_div_quot(a2, b, c),
{
    assert(a1 * b <= a2 * b) by (nonlinear_arith)
        requires
            0 <= a1 <= a2,
            0 <= b,
    ;
    lemma_div_is_ordered(a1 * b, a2 * b, c);
}

/// The divisor of the last-resort approximation: `c` scaled down by
/// `APPROX_SCALE` squared, floored to at least one.
pub open spec fn approx_divisor(c: int) -> int {
    if c / (APPROX_SCALE * APPROX_SCALE) == 0 {
        1
    } else {
        c / (APPROX_SCALE * APPROX_SCALE)
    }
}

/// The remainder-times-quotient term `r * (b/c)` of the second decomposition,
/// or, past the domain, its scaled approximation.
pub open spec fn ladder_sub1(r: int, b_div_c: int) -> int {
    if r * b_div_c <= u128::MAX {
        r * b_div_c
    } else {
        (r / (APPROX_SCALE as int)) * (b_div_c / (APPROX_SCALE as int)) * (APPROX_SCALE as int)
    }
}

/// Whether `ladder_sub1` is computable inside `u128`.
pub open spec fn ladder_sub1_fits(r: int, b_div_c: int) -> bool {
    ||| r * b_div_c <= u128::MAX
    ||| ((r / (APPROX_SCALE as int)) * (b_div_c / (APPROX_SCALE as int)) <= u128::MAX && (r / (
    APPROX_SCALE as int)) * (b_div_c / (APPROX_SCALE as int)) * (APPROX_SCALE as int)
        <= u128::MAX)
}

/// The remainder-times-remainder term `⌊r * (b%c) / c⌋` of the second
/// decomposition, or, past the domain, its scaled approximation.
pub open spec fn ladder_sub2(r: int, b_mod_c: int, c: int) -> int {
    if r * b_mod_c <= u128::MAX {
        (r * b_mod_c) / c
    } else {
        ((r / (APPROX_SCALE as int)) * (b_mod_c / (APPROX_SCALE as int))) / approx_divisor(c)
    }
}

/// Whether `ladder_sub2` is computable inside `u128`.
pub open spec fn ladder_sub2_fits(r: int, b_mod_c: int) -> bool {
    ||| r * b_mod_c <= u128::MAX
    ||| (r / (APPROX_SCALE as int)) * (b_mod_c / (APPROX_SCALE as int)) <= u128::MAX
}

/// The remainder term `⌊r * b / c⌋` of the first decomposition, or, past the
/// domain, its own decomposition along `b = (b/c)*c + b%c`.
pub open spec fn ladder_term2(r: int, b: int, c: int) -> int {
    if r * b <= u128::MAX {
        (r * b) / c
    } else {
        ladder_sub1(r, b / c) + ladder_sub2(r, b % c, c)
    }
}

/// Whether `ladder_term2` is computable inside `u128`.
pub open spec fn ladder_term2_fits(r: int, b: int, c: int) -> bool {
    ||| r * b <= u128::MAX
    ||| (ladder_sub1_fits(r, b / c) && ladder_sub2_fits(r, b % c) && ladder_sub1(r, b / c)
        + ladder_sub2(r, b % c, c) <= u128::MAX)
}

/// The value `safe_mul_div`'s decomposition ladder computes, branch for
/// branch, over the mathematical integers. On `mul_div_exact` inputs it is
/// the exact floored quotient; past them it is the sanctioned scaled
/// approximation.
pub open spec fn mul_div_ladder(a: u128, b: u128, c: u128) -> int {
    if a * b <= u128::MAX {
        mul_div_quot(a as int, b as int, c as int)
    } else {
        (a as int / c as int) * b + ladder_term2(a as int % c as int, b as int, c as int)
    }
}

/// Exactly when `safe_mul_div` returns normally: the divisor is positive and
/// every intermediate value of the ladder stays inside `u128`.
pub open spec fn mul_div_fits(a: u128, b: u128, c: u128) -> bool {
    &&& c > 0
    &&& (a * b <= u128::MAX || ((a as int / c as int) * b <= u128::MAX && ladder_term2_fits(
        a as int % c as int,
        b as int,
        c as int,
    ) && (a as int / c as int) * b + ladder_term2(a as int % c as int, b as int, c as int)
        <= u128::MAX))
}

/// Multiplying by a fraction of at most one (`b <= c`) cannot grow `a`.
pub proof fn lemma_mul_div_le_left(a: int, b: int, c: int)
    requires
        0 <= a,
        0 <= b <= c,
        0 < c,
    ensures
        mul_div_quot(a, b, c) <= a,
{
    assert(a * b <= a * c) by (nonlinear_arith)
        requires
            0 <= a,
            b <= c,
    ;
    lemma_div_is_ordered(a * b, a * c, c);
    lemma_div_by_multiple(a, c);
    assert((a * c) / c == a);
}

/// Computes `⌊(a * b) / c⌋` without `u128` overflow wherever the
/// decomposition ladder suffices (`mul_div_exact`); on the remaining inputs
/// it returns the ladder's scaled approximation, whose value the contract
/// pins exactly (`mul_div_ladder`), or `ArithmeticOverflow` where even the
/// approximation leaves the domain (`mul_div_fits` marks the boundary).
///
/// Fails with `DivisionByZero` exactly when `c == 0`, and with
/// `ArithmeticOverflow` whenever `(a/c) * b` — a lower bound on the true
/// quotient — exceeds the domain.
pub fn safe_mul_div(a: u128, b: u128, c: u128) -> (r: Result<u128, MarketError>)
    ensures
        c == 0 <==> r == Err::<u128, MarketError>(MarketError::DivisionByZero),
        mul_div_exact(a, b, c) ==> r == Ok::<u128, MarketError>(
            mul_div_quot(a as int, b as int, c as int) as u128,
        ),
        r is Ok <==> mul_div_fits(a, b, c),
        r matches Ok(v) ==> v == mul_div_ladder(a, b, c),
        c > 0 && (a as int / c as int) * (b as int) > u128::MAX ==> r == Err::<
            u128,
            MarketError,
        >(MarketError::ArithmeticOverflow),
        r is Err ==> r == Err::<u128, MarketError>(MarketError::DivisionByZero) || r == Err::<
            u128,
            MarketError,
        >(MarketError::ArithmeticOverflow),
{
    if c == 0 {
        return Err(MarketError::DivisionByZero);
    }
    proof {
        lemma_mul_div_decompose(a as int, b as int, c as int);
        lemma_mod_decreases(a as nat, c as nat);
        lemma_mul_div_quot_ordered(a as int % c as int, a as int, b as int, c as int);
    }
    if let Some(product) = a.checked_mul(b) {
        proof {
            lemma_div_nonincreasing(a as int, c as int);
            lemma_div_pos_is_pos(a as int, c as int);
            assert((a as int / c as int) * b <= a * b) by (nonlinear_arith)
                requires
                    0 <= a as int / c as int <= a,
                    0 <= b,
            ;
        }
        return Ok(product / c);
    }
    // The direct product overflows the domain: decompose a = quotient*c + remainder.
    let quotient = a / c;
    let remainder = a % c;
    let term1 = match quotient.checked_mul(b) {
        Some(t) => t,
        None => {
            return Err(MarketError::ArithmeticOverflow);
        },
    };
    let term2 = match remainder.checked_mul(b) {
        Some(rem_product) => rem_product / c,
        None => {
            // remainder*b still overflows: decompose b = b_div_c*c + b_mod_c.
            let b_div_c = b / c;
            let b_mod_c = b % c;
            proof {
                lemma_mul_div_decompose(b as int, remainder as int, c as int);
                assert(remainder * b == b * remainder && (b as int / c as int) * remainder
                    == remainder * (b as int / c as int) && (b as int % c as int) * remainder
                    == remainder * (b as int % c as int)) by (nonlinear_arith);
                lemma_mod_division_less_than_divisor(b as int, c as int);
            }
            let sub1 = match remainder.checked_mul(b_div_c) {
                Some(p) => p,
                None => {
                    // Last resort: scale both factors down before multiplying,
                    // accepting bounded relative error.
                    let p = match (remainder / APPROX_SCALE).checked_mul(b_div_c / APPROX_SCALE) {
                        Some(p) => p,
                        None => {
                            return Err(MarketError::ArithmeticOverflow);
                        },
                    };
                    match p.checked_mul(APPROX_SCALE) {
                        Some(v) => v,
                        None => {
                            return Err(MarketError::ArithmeticOverflow);
                        },
                    }
                },
            };
            let sub2 = match remainder.checked_mul(b_mod_c) {
                Some(p) => p / c,
                None => {
                    let p = match (remainder / APPROX_SCALE).checked_mul(b_mod_c / APPROX_SCALE) {
                        Some(p) => p,
                        None => {
                            return Err(MarketError::ArithmeticOverflow);
                        },
                    };
                    let d = c / (APPROX_SCALE * APPROX_SCALE);
                    if d == 0 {
                        p
                    } else {
                        p / d
                    }
                },
            };
            match sub1.checked_add(sub2) {
                Some(t) => t,
                None => {
                    return Err(MarketError::ArithmeticOverflow);
                },
            }
        },
    };
    match term1.checked_add(term2) {
        Some(v) => Ok(v),
        None => Err(MarketError::ArithmeticOverflow),
    }
}

} // verus!
