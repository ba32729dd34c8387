//! Constant-product pricing: the cost of buying shares out of a two-sided
//! pool, the proceeds of selling shares back into it, and the laws tying the
//! two to the pool product.
//!
//! Buying `shares` of one side draws them from that side's pool and pays
//! `cost = pool_in * shares / (pool_out - shares)` into the opposing pool —
//! the exact inverse of the constant-product invariant
//! `pool_in * pool_out == (pool_in + cost) * (pool_out - shares)`, floored.

use vstd::prelude::*;
use vstd::arithmetic::div_mod::*;
use crate::errors::MarketError;
use crate::fixed_point::{safe_mul_div, mul_div_quot, mul_div_exact, mul_div_fits, mul_div_ladder};

verus! {

/// The exact floored cost of buying `shares` out of `pool_out` against
/// `pool_in`, as a mathematical integer.
pub open spec fn cost_to_buy_quot(pool_in: u128, pool_out: u128, shares: u128) -> int {
    mul_div_quot(pool_in as int, shares as int, pool_out - shares)
}

/// The exact floored proceeds of selling `shares` into `pool_in` out of
/// `pool_out`, as a mathematical integer.
pub open spec fn proceeds_from_sell_quot(pool_in: u128, pool_out: u128, shares: u128) -> int {
    mul_div_quot(pool_out as int, shares as int, pool_in + shares)
}

/// Prices a buy: `pool_in * shares / (pool_out - shares)`, refusing trades
/// that would drain the chosen pool to zero or below.
pub fn cost_to_buy(pool_in: u128, pool_out: u128, shares: u128) -> (r: Result<u128, MarketError>)
    ensures
        shares >= pool_out <==> r == Err::<u128, MarketError>(MarketError::InsufficientLiquidity),
        shares < pool_out && mul_div_exact(pool_in, shares, (pool_out - shares) as u128) ==> r
            == Ok::<u128, MarketError>(cost_to_buy_quot(pool_in, pool_out, shares) as u128),
        shares < pool_out ==> (r is Ok <==> mul_div_fits(
            pool_in,
            shares,
            (pool_out - shares) as u128,
        )),
        r matches Ok(v) ==> v == mul_div_ladder(pool_in, shares, (pool_out - shares) as u128),
        r is Err ==> r == Err::<u128, MarketError>(MarketError::InsufficientLiquidity) || r
            == Err::<u128, MarketError>(MarketError::ArithmeticOverflow),
{
    if shares >= pool_out {
        return Err(MarketError::InsufficientLiquidity);
    }
    safe_mul_div(pool_in, shares, pool_out - shares)
}

/// Prices a sell: `pool_out * shares / (pool_in + shares)`, where `pool_in`
/// is the side being sold into.
pub fn proceeds_from_sell(pool_in: u128, pool_out: u128, shares: u128) -> (r: Result<
    u128,
    MarketError,
>)
    ensures
        pool_in + shares > u128::MAX ==> r == Err::<u128, MarketError>(
            MarketError::ArithmeticOverflow,
        ),
        pool_in == 0 && shares == 0 ==> r == Err::<u128, MarketError>(MarketError::DivisionByZero),
        0 < pool_in + shares <= u128::MAX && mul_div_exact(
            pool_out,
            shares,
            (pool_in + shares) as u128,
        ) ==> r == Ok::<u128, MarketError>(
            proceeds_from_sell_quot(pool_in, pool_out, shares) as u128,
        ),
        pool_in + shares <= u128::MAX ==> (r is Ok <==> mul_div_fits(
            pool_out,
            shares,
            (pool_in + shares) as u128,
        )),
        r matches Ok(v) ==> pool_in + shares <= u128::MAX && v == mul_div_ladder(
            pool_out,
            shares,
            (pool_in + shares) as u128,
        ),
        r is Err ==> r == Err::<u128, MarketError>(MarketError::DivisionByZero) || r == Err::<
            u128,
            MarketError,
        >(MarketError::ArithmeticOverflow),
{
    let denominator = match pool_in.checked_add(shares) {
        Some(d) => d,
        None => {
            return Err(MarketError::ArithmeticOverflow);
        },
    };
    safe_mul_div(pool_out, shares, denominator)
}

/// Law: a buy changes the pool product by exactly the rounding remainder of
/// the cost division. The constant-product invariant holds modulo rounding
/// (the shortfall is smaller than the drained pool), and rounding never works
/// in the trader's favour.
pub proof fn lemma_buy_product(pool_in: u128, pool_out: u128, shares: u128)
    requires
        0 < shares < pool_out,
    ensures
        ({
            let cost = cost_to_buy_quot(pool_in, pool_out, shares);
            let rem = (pool_in * shares) % (pool_out - shares);
            &&& 0 <= rem < pool_out - shares
            &&& (pool_in + cost) * (pool_out - shares) == pool_in * pool_out - rem
        }),
{
    let d: int = pool_out - shares;
    let x: int = pool_in * shares;
    let cost = x / d;
    let rem = x % d;
    assert(0 <= x) by (nonlinear_arith)
        requires
            0 <= pool_in,
            0 <= shares,
            x == pool_in * shares,
    ;
    lemma_fundamental_div_mod(x, d);
    lemma_mod_division_less_than_divisor(x, d);
    assert((pool_in + cost) * d == pool_in * pool_out - rem) by (nonlinear_arith)
        requires
            x == pool_in * shares,
            x == d * cost + rem,
            d == pool_out - shares,
    ;
}

/// Law: trading never drains a pool. A buy that passes the liquidity check
/// leaves the chosen pool positive and can only grow the opposing pool; a
/// sell into a positive pool draws strictly less than the whole opposing
/// pool.
pub proof fn lemma_pools_stay_positive(pool_in: u128, pool_out: u128, shares: u128)
    requires
        0 < pool_in,
        0 < shares < pool_out,
    ensures
        pool_out - shares > 0,
        pool_in + cost_to_buy_quot(pool_in, pool_out, shares) >= pool_in,
        proceeds_from_sell_quot(pool_in, pool_out, shares) < pool_out,
{
    let d: int = pool_out - shares;
    let x: int = pool_in * shares;
    assert(0 <= x) by (nonlinear_arith)
        requires
            0 <= pool_in,
            0 <= shares,
            x == pool_in * shares,
    ;
    lemma_div_pos_is_pos(x, d);
    assert(pool_out * shares < (pool_in + shares) * pool_out) by (nonlinear_arith)
        requires
            0 < pool_in,
            0 < shares,
            0 < pool_out,
    ;
    lemma_multiply_divide_lt(pool_out * shares, pool_in + shares, pool_out as int);
}

/// Law: buying `shares` and immediately selling them back against the updated
/// pools returns exactly the original cost — a zero-time round trip can never
/// net a gain. After the buy, the share side holds `pool_out - shares` and the
/// money side `pool_in + cost`, so the sell divides by
/// `(pool_out - shares) + shares == pool_out`.
pub proof fn lemma_round_trip_no_gain(pool_in: u128, pool_out: u128, shares: u128)
    requires
        0 < shares < pool_out,
    ensures
        ({
            let cost = cost_to_buy_quot(pool_in, pool_out, shares);
            mul_div_quot(pool_in + cost, shares as int, pool_out as int) == cost
        }),
{
    let d: int = pool_out - shares;
    let x: int = pool_in * shares;
    let cost = x / d;
    let rem = x % d;
    assert(0 <= x) by (nonlinear_arith)
        requires
            0 <= pool_in,
            0 <= shares,
            x == pool_in * shares,
    ;
    lemma_fundamental_div_mod(x, d);
    lemma_mod_division_less_than_divisor(x, d);
    lemma_div_pos_is_pos(x, d);
    assert((pool_in + cost) * shares == rem + cost * pool_out) by (nonlinear_arith)
        requires
            x == pool_in * shares,
            x == d * cost + rem,
            d == pool_out - shares,
    ;
    lemma_hoist_over_denominator(rem, cost, pool_out as nat);
    lemma_basic_div_specific_divisor(pool_out as int);
    assert(rem / (pool_out as int) == 0);
}

} // verus!
