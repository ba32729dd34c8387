//! The ledger: every market, position and combo, the id counters, and the
//! process-wide volume, together with the operations that move them. Each
//! operation validates, computes, and only then mutates — on any error the
//! state is exactly what it was.

use vstd::prelude::*;
use crate::combo::{
    any_leg_resolved, any_lost, any_resolved, combo_cascaded, combo_check, combo_legs_check,
    combo_status_of, combined_odds_rec, combo_odds_exact, leg_after_resolution, leg_odds,
    leg_odds_quot, lemma_combo_legs_check_extend, lemma_combo_legs_check_none,
    lemma_combo_odds_exact_prefix, opposing_pool, resolve_legs, status_of_legs, Combo, ComboLeg,
    ComboStatus, LegRequest,
};
use crate::errors::{Entity, MarketError};
use crate::fixed_point::{
    lemma_mul_div_le_left, mul_div_exact, mul_div_ladder, mul_div_quot, safe_mul_div, SCALE,
};
use crate::market::{Market, Position};
use crate::positions::{
    lemma_contrib_le_sum, lemma_position_of_index, lemma_position_of_none,
    lemma_position_of_push_other, lemma_position_of_update_other, lemma_sum_shares_no_match,
    lemma_sum_shares_push, lemma_sum_shares_update, position_of, sum_no_shares, sum_yes_shares,
};
use crate::pricing::{cost_to_buy, cost_to_buy_quot, proceeds_from_sell, proceeds_from_sell_quot};

verus! {

/// Removing an element and putting another back in its place is a pointwise
/// update.
proof fn lemma_remove_insert_is_update<T>(s: Seq<T>, i: int, v: T)
    requires
        0 <= i < s.len(),
    ensures
        s.remove(i).insert(i, v) == s.update(i, v),
{
    assert(s.remove(i).insert(i, v) =~= s.update(i, v));
}

/// The pool a buy's cost is paid into: the side opposing the bought one.
pub open spec fn pool_in_of(m: Market, is_yes: bool) -> u128 {
    if is_yes {
        m.no_pool
    } else {
        m.yes_pool
    }
}

/// The pool the bought shares are drawn from: the chosen side.
pub open spec fn pool_out_of(m: Market, is_yes: bool) -> u128 {
    if is_yes {
        m.yes_pool
    } else {
        m.no_pool
    }
}

/// A market after a buy settles: cost into the opposing pool, shares out of
/// the chosen pool, the chosen side's total and both volumes grown.
pub open spec fn market_after_buy(m: Market, is_yes: bool, shares: u128, cost: u128) -> Market {
    if is_yes {
        Market {
            no_pool: (m.no_pool + cost) as u128,
            yes_pool: (m.yes_pool - shares) as u128,
            total_yes_shares: (m.total_yes_shares + shares) as u128,
            volume: (m.volume + cost) as u128,
            ..m
        }
    } else {
        Market {
            yes_pool: (m.yes_pool + cost) as u128,
            no_pool: (m.no_pool - shares) as u128,
            total_no_shares: (m.total_no_shares + shares) as u128,
            volume: (m.volume + cost) as u128,
            ..m
        }
    }
}

/// A position after buying shares of one side.
pub open spec fn position_after_buy(p: Position, is_yes: bool, shares: u128) -> Position {
    if is_yes {
        Position { yes_shares: (p.yes_shares + shares) as u128, ..p }
    } else {
        Position { no_shares: (p.no_shares + shares) as u128, ..p }
    }
}

/// The position created by an owner's first trade in a market.
pub open spec fn fresh_position(owner: u64, market_id: u64, is_yes: bool, shares: u128) -> Position {
    Position {
        market_id: market_id,
        owner: owner,
        yes_shares: if is_yes {
            shares
        } else {
            0
        },
        no_shares: if is_yes {
            0
        } else {
            shares
        },
        claimed: false,
    }
}

/// How many shares of one side an owner holds in a market.
pub open spec fn held_shares(
    positions: Seq<Position>,
    owner: u64,
    market_id: u64,
    is_yes: bool,
) -> int {
    match position_of(positions, owner, market_id) {
        Some(p) => if is_yes {
            p.yes_shares as int
        } else {
            p.no_shares as int
        },
        None => 0,
    }
}

/// The validation verdict of a buy, before any arithmetic: the market must
/// exist, be unresolved and not past its end time, and the trade must leave
/// the chosen pool positive.
pub open spec fn buy_check(
    markets: Seq<Market>,
    timestamp: u64,
    market_id: u64,
    is_yes: bool,
    shares: u128,
) -> Option<MarketError> {
    if market_id >= markets.len() {
        Some(MarketError::NotFound(Entity::Market))
    } else {
        let m = markets[market_id as int];
        if m.resolved {
            Some(MarketError::AlreadyResolved)
        } else if timestamp > m.end_time {
            Some(MarketError::MarketEnded)
        } else if shares >= pool_out_of(m, is_yes) {
            Some(MarketError::InsufficientLiquidity)
        } else {
            None
        }
    }
}

/// Whether every addition a buy performs stays inside `u128`.
pub open spec fn buy_fits(
    s: MarketState,
    caller: u64,
    market_id: u64,
    is_yes: bool,
    shares: u128,
    cost: int,
) -> bool {
    let m = s.markets@[market_id as int];
    &&& pool_in_of(m, is_yes) + cost <= u128::MAX
    &&& (if is_yes {
        m.total_yes_shares
    } else {
        m.total_no_shares
    }) + shares <= u128::MAX
    &&& m.volume + cost <= u128::MAX
    &&& s.total_volume + cost <= u128::MAX
    &&& held_shares(s.positions@, caller, market_id, is_yes) + shares <= u128::MAX
}

/// A market after a sell settles: shares back into the chosen pool, proceeds
/// out of the opposing pool, the chosen side's total shrunk, volumes grown.
pub open spec fn market_after_sell(m: Market, is_yes: bool, shares: u128, proceeds: u128) -> Market {
    if is_yes {
        Market {
            yes_pool: (m.yes_pool + shares) as u128,
            no_pool: (m.no_pool - proceeds) as u128,
            total_yes_shares: (m.total_yes_shares - shares) as u128,
            volume: (m.volume + proceeds) as u128,
            ..m
        }
    } else {
        Market {
            no_pool: (m.no_pool + shares) as u128,
            yes_pool: (m.yes_pool - proceeds) as u128,
            total_no_shares: (m.total_no_shares - shares) as u128,
            volume: (m.volume + proceeds) as u128,
            ..m
        }
    }
}

/// A position after selling shares of one side.
pub open spec fn position_after_sell(p: Position, is_yes: bool, shares: u128) -> Position {
    if is_yes {
        Position { yes_shares: (p.yes_shares - shares) as u128, ..p }
    } else {
        Position { no_shares: (p.no_shares - shares) as u128, ..p }
    }
}

/// The validation verdict of a sell: the market must exist and be unresolved
/// (selling stays possible past the end time, until resolution), and the
/// caller must hold the shares being sold.
pub open spec fn sell_check(
    markets: Seq<Market>,
    positions: Seq<Position>,
    caller: u64,
    market_id: u64,
    is_yes: bool,
    shares: u128,
) -> Option<MarketError> {
    if market_id >= markets.len() {
        Some(MarketError::NotFound(Entity::Market))
    } else {
        let m = markets[market_id as int];
        if m.resolved {
            Some(MarketError::AlreadyResolved)
        } else if shares > held_shares(positions, caller, market_id, is_yes) {
            Some(MarketError::InsufficientLiquidity)
        } else {
            None
        }
    }
}

/// Whether every addition a sell performs stays inside `u128`.
pub open spec fn sell_fits(s: MarketState, market_id: u64, is_yes: bool, shares: u128, proceeds: int) -> bool {
    let m = s.markets@[market_id as int];
    &&& pool_out_of(m, is_yes) + shares <= u128::MAX
    &&& m.volume + proceeds <= u128::MAX
    &&& s.total_volume + proceeds <= u128::MAX
}

/// The validation verdict of a resolution: the market must exist, still be
/// open, and only its creator may settle it.
pub open spec fn resolve_check(markets: Seq<Market>, caller: u64, market_id: u64) -> Option<
    MarketError,
> {
    if market_id >= markets.len() {
        Some(MarketError::NotFound(Entity::Market))
    } else {
        let m = markets[market_id as int];
        if m.resolved {
            Some(MarketError::AlreadyResolved)
        } else if m.creator != caller {
            Some(MarketError::NotAuthorized)
        } else {
            None
        }
    }
}

/// The shares of a position that pay out under an outcome.
pub open spec fn winning_shares_of(p: Position, outcome: bool) -> u128 {
    if outcome {
        p.yes_shares
    } else {
        p.no_shares
    }
}

/// The market-wide total of the winning side's shares.
pub open spec fn total_winning_shares_of(m: Market, outcome: bool) -> u128 {
    if outcome {
        m.total_yes_shares
    } else {
        m.total_no_shares
    }
}

/// The validation verdict of a claim: the market must exist and be resolved,
/// the caller must hold an unclaimed position with shares on the winning side.
pub open spec fn claim_check(
    markets: Seq<Market>,
    positions: Seq<Position>,
    caller: u64,
    market_id: u64,
) -> Option<MarketError> {
    if market_id >= markets.len() {
        Some(MarketError::NotFound(Entity::Market))
    } else {
        let m = markets[market_id as int];
        if !m.resolved {
            Some(MarketError::OutcomeUnset)
        } else {
            match position_of(positions, caller, market_id) {
                None => Some(MarketError::NotFound(Entity::Position)),
                Some(p) => {
                    if p.claimed {
                        Some(MarketError::AlreadyClaimed)
                    } else {
                        match m.outcome {
                            Some(o) => if winning_shares_of(p, o) == 0 {
                                Some(MarketError::NoWinningShares)
                            } else {
                                None
                            },
                            None => Some(MarketError::OutcomeUnset),
                        }
                    }
                },
            }
        }
    }
}

/// The exact floored payout of a claim: the winner's proportional slice of
/// the entire remaining pooled liquidity, both sides combined.
pub open spec fn claim_payout_quot(m: Market, p: Position) -> int {
    match m.outcome {
        Some(o) => mul_div_quot(
            winning_shares_of(p, o) as int,
            m.yes_pool + m.no_pool,
            total_winning_shares_of(m, o) as int,
        ),
        None => 0,
    }
}

/// The validation verdict of a combo cancellation: the combo must exist and
/// belong to the caller, be still active, and no leg may have resolved — the
/// moment any constituent market settles, the combo is locked in.
pub open spec fn cancel_check(combos: Seq<Combo>, caller: u64, combo_id: u64) -> Option<
    MarketError,
> {
    if combo_id >= combos.len() {
        Some(MarketError::NotFound(Entity::Combo))
    } else {
        let c = combos[combo_id as int];
        if c.owner != caller {
            Some(MarketError::NotAuthorized)
        } else if any_resolved(c.legs@) {
            Some(MarketError::PartialResolutionPreventsCancel)
        } else if !(c.status is Active) {
            Some(MarketError::NotCancellable)
        } else {
            None
        }
    }
}

/// Everything `create_market` promises, relating the ledger before (`pre`)
/// and after (`post`) the call to its result: a fresh market appended with
/// both pools and both share totals seeded at half the supplied liquidity,
/// success exactly until the id space is exhausted, and nothing else moved.
pub open spec fn create_market_post(
    pre: MarketState,
    post: MarketState,
    caller: u64,
    timestamp: u64,
    question: String,
    categories: Vec<String>,
    end_time: u64,
    initial_liquidity: u128,
    r: Result<u64, MarketError>,
) -> bool {
    &&& (pre.markets@.len() < u64::MAX <==> r == Ok::<u64, MarketError>(pre.next_market_id))
    &&& (r is Err ==> post == pre && r == Err::<u64, MarketError>(MarketError::ArithmeticOverflow))
    &&& (r is Ok ==> {
        &&& post.markets@.len() == pre.markets@.len() + 1
        &&& (forall|k: int|
            0 <= k < pre.markets@.len() ==> post.markets@[k] == #[trigger] pre.markets@[k])
        &&& ({
            let nm = post.markets@[pre.markets@.len() as int];
            &&& nm.id == pre.next_market_id
            &&& nm.creator == caller
            &&& nm.question == question
            &&& nm.categories == categories
            &&& nm.end_time == end_time
            &&& nm.created_at == timestamp
            &&& nm.yes_pool == initial_liquidity / 2
            &&& nm.no_pool == initial_liquidity / 2
            &&& nm.total_yes_shares == initial_liquidity / 2
            &&& nm.total_no_shares == initial_liquidity / 2
            &&& !nm.resolved
            &&& nm.outcome is None
            &&& nm.volume == 0
            &&& nm.seed_shares@ == initial_liquidity / 2
        })
        &&& post.next_market_id == pre.next_market_id + 1
        &&& post.positions@ == pre.positions@
        &&& post.combos@ == pre.combos@
        &&& post.total_volume == pre.total_volume
    })
}

/// Everything `buy_shares` promises: validation errors per `buy_check`, a
/// cost within the caller's bound and exact on `safe_mul_div`'s exact domain,
/// the pools, totals, volumes and the caller's position all moved together,
/// every other key and market untouched — or, on any error, nothing at all.
pub open spec fn buy_post(
    pre: MarketState,
    post: MarketState,
    caller: u64,
    timestamp: u64,
    market_id: u64,
    is_yes: bool,
    shares: u128,
    max_cost: u128,
    r: Result<u128, MarketError>,
) -> bool {
    &&& (buy_check(pre.markets@, timestamp, market_id, is_yes, shares) matches Some(e) ==> r
        == Err::<u128, MarketError>(e))
    &&& (r is Err ==> post == pre)
    &&& (buy_check(pre.markets@, timestamp, market_id, is_yes, shares) is None ==> ({
        let m = pre.markets@[market_id as int];
        let exact = mul_div_exact(
            pool_in_of(m, is_yes),
            shares,
            (pool_out_of(m, is_yes) - shares) as u128,
        );
        let cq = cost_to_buy_quot(pool_in_of(m, is_yes), pool_out_of(m, is_yes), shares);
        &&& (exact && cq > max_cost ==> r == Err::<u128, MarketError>(
            MarketError::CostExceedsLimit,
        ))
        &&& (exact && cq <= max_cost && buy_fits(pre, caller, market_id, is_yes, shares, cq) ==> r
            == Ok::<u128, MarketError>(cq as u128))
        &&& (r is Err ==> r == Err::<u128, MarketError>(MarketError::CostExceedsLimit) || r
            == Err::<u128, MarketError>(MarketError::ArithmeticOverflow))
    }))
    &&& (r matches Ok(cost) ==> ({
        let m = pre.markets@[market_id as int];
        &&& buy_check(pre.markets@, timestamp, market_id, is_yes, shares) is None
        &&& cost <= max_cost
        &&& shares < pool_out_of(m, is_yes)
        &&& pool_in_of(m, is_yes) + cost <= u128::MAX
        &&& pool_out_of(market_after_buy(m, is_yes, shares, cost), is_yes) == pool_out_of(
            m,
            is_yes,
        ) - shares
        &&& pool_in_of(market_after_buy(m, is_yes, shares, cost), is_yes) == pool_in_of(m, is_yes)
            + cost
        &&& (mul_div_exact(
            pool_in_of(m, is_yes),
            shares,
            (pool_out_of(m, is_yes) - shares) as u128,
        ) ==> cost == cost_to_buy_quot(pool_in_of(m, is_yes), pool_out_of(m, is_yes), shares))
        &&& cost == mul_div_ladder(
            pool_in_of(m, is_yes),
            shares,
            (pool_out_of(m, is_yes) - shares) as u128,
        )
        &&& post.markets@ == pre.markets@.update(
            market_id as int,
            market_after_buy(m, is_yes, shares, cost),
        )
        &&& post.total_volume == pre.total_volume + cost
        &&& post.combos@ == pre.combos@
        &&& position_of(post.positions@, caller, market_id) == Some(
            match position_of(pre.positions@, caller, market_id) {
                Some(p) => position_after_buy(p, is_yes, shares),
                None => fresh_position(caller, market_id, is_yes, shares),
            },
        )
        &&& (forall|o: u64, mid2: u64|
            !(o == caller && mid2 == market_id) ==> #[trigger] position_of(
                post.positions@,
                o,
                mid2,
            ) == position_of(pre.positions@, o, mid2))
        &&& sum_yes_shares(post.positions@, market_id) == sum_yes_shares(pre.positions@, market_id)
            + (if is_yes {
            shares as int
        } else {
            0
        })
        &&& sum_no_shares(post.positions@, market_id) == sum_no_shares(pre.positions@, market_id)
            + (if is_yes {
            0
        } else {
            shares as int
        })
        &&& (forall|mid2: u64|
            mid2 != market_id ==> #[trigger] sum_yes_shares(post.positions@, mid2)
                == sum_yes_shares(pre.positions@, mid2))
        &&& (forall|mid2: u64|
            mid2 != market_id ==> #[trigger] sum_no_shares(post.positions@, mid2) == sum_no_shares(
                pre.positions@,
                mid2,
            ))
    }))
}

/// Everything `sell_shares` promises: validation errors per `sell_check`,
/// proceeds within the caller's bound and exact on `safe_mul_div`'s exact
/// domain, never exceeding the opposing pool; the pools, totals, volumes and
/// the caller's position all moved together, every other key and market
/// untouched — or, on any error, nothing at all.
pub open spec fn sell_post(
    pre: MarketState,
    post: MarketState,
    caller: u64,
    market_id: u64,
    is_yes: bool,
    shares: u128,
    min_proceeds: u128,
    r: Result<u128, MarketError>,
) -> bool {
    &&& (sell_check(pre.markets@, pre.positions@, caller, market_id, is_yes, shares) matches Some(
        e,
    ) ==> r == Err::<u128, MarketError>(e))
    &&& (r is Err ==> post == pre)
    &&& (sell_check(pre.markets@, pre.positions@, caller, market_id, is_yes, shares) is None
        ==> ({
        let m = pre.markets@[market_id as int];
        let side = pool_out_of(m, is_yes);
        let money = pool_in_of(m, is_yes);
        let exact = side + shares <= u128::MAX && mul_div_exact(
            money,
            shares,
            (side + shares) as u128,
        );
        let pq = proceeds_from_sell_quot(side, money, shares);
        &&& (exact && pq < min_proceeds ==> r == Err::<u128, MarketError>(
            MarketError::ProceedsBelowMinimum,
        ))
        &&& (exact && pq >= min_proceeds && sell_fits(pre, market_id, is_yes, shares, pq) ==> r
            == Ok::<u128, MarketError>(pq as u128))
        &&& (r is Err ==> r == Err::<u128, MarketError>(MarketError::ProceedsBelowMinimum) || r
            == Err::<u128, MarketError>(MarketError::ArithmeticOverflow) || r == Err::<
            u128,
            MarketError,
        >(MarketError::DivisionByZero))
    }))
    &&& (r matches Ok(proceeds) ==> ({
        let m = pre.markets@[market_id as int];
        &&& sell_check(pre.markets@, pre.positions@, caller, market_id, is_yes, shares) is None
        &&& proceeds >= min_proceeds
        &&& proceeds <= pool_in_of(m, is_yes)
        &&& (pool_out_of(m, is_yes) + shares <= u128::MAX && mul_div_exact(
            pool_in_of(m, is_yes),
            shares,
            (pool_out_of(m, is_yes) + shares) as u128,
        ) ==> proceeds == proceeds_from_sell_quot(
            pool_out_of(m, is_yes),
            pool_in_of(m, is_yes),
            shares,
        ))
        &&& pool_out_of(m, is_yes) + shares <= u128::MAX
        &&& proceeds == mul_div_ladder(
            pool_in_of(m, is_yes),
            shares,
            (pool_out_of(m, is_yes) + shares) as u128,
        )
        &&& post.markets@ == pre.markets@.update(
            market_id as int,
            market_after_sell(m, is_yes, shares, proceeds),
        )
        &&& post.total_volume == pre.total_volume + proceeds
        &&& post.combos@ == pre.combos@
        &&& position_of(post.positions@, caller, market_id) == (match position_of(
            pre.positions@,
            caller,
            market_id,
        ) {
            Some(p) => Some(position_after_sell(p, is_yes, shares)),
            None => None::<Position>,
        })
        &&& (forall|o: u64, mid2: u64|
            !(o == caller && mid2 == market_id) ==> #[trigger] position_of(
                post.positions@,
                o,
                mid2,
            ) == position_of(pre.positions@, o, mid2))
        &&& sum_yes_shares(post.positions@, market_id) == sum_yes_shares(pre.positions@, market_id)
            - (if is_yes {
            shares as int
        } else {
            0
        })
        &&& sum_no_shares(post.positions@, market_id) == sum_no_shares(pre.positions@, market_id)
            - (if is_yes {
            0
        } else {
            shares as int
        })
        &&& (forall|mid2: u64|
            mid2 != market_id ==> #[trigger] sum_yes_shares(post.positions@, mid2)
                == sum_yes_shares(pre.positions@, mid2))
        &&& (forall|mid2: u64|
            mid2 != market_id ==> #[trigger] sum_no_shares(post.positions@, mid2) == sum_no_shares(
                pre.positions@,
                mid2,
            ))
    }))
}

/// Everything `resolve_market` promises: errors per `resolve_check` and
/// success owed exactly when it is clear; on success the market is frozen
/// with its outcome recorded, every open combo is cascaded pointwise, and
/// positions and volume are untouched — or, on any error, nothing at all.
pub open spec fn resolve_post(
    pre: MarketState,
    post: MarketState,
    caller: u64,
    market_id: u64,
    outcome: bool,
    r: Result<(), MarketError>,
) -> bool {
    &&& (resolve_check(pre.markets@, caller, market_id) matches Some(e) ==> r == Err::<
        (),
        MarketError,
    >(e))
    &&& (resolve_check(pre.markets@, caller, market_id) is None <==> r == Ok::<(), MarketError>(()))
    &&& (r is Err ==> post == pre)
    &&& (r is Ok ==> ({
        let m = pre.markets@[market_id as int];
        &&& post.markets@ == pre.markets@.update(
            market_id as int,
            Market { resolved: true, outcome: Some(outcome), ..m },
        )
        &&& post.positions@ == pre.positions@
        &&& post.total_volume == pre.total_volume
        &&& post.combos@.len() == pre.combos@.len()
        &&& (forall|k: int|
            0 <= k < pre.combos@.len() ==> combo_cascaded(
                #[trigger] pre.combos@[k],
                post.combos@[k],
                market_id,
                outcome,
            ))
    }))
}

/// Everything `claim_winnings` promises: errors per `claim_check`; on
/// success, a payout that is the winner's proportional slice of the whole
/// remaining pool (exact on `safe_mul_div`'s exact domain), the position
/// marked claimed with its shares kept, and nothing else moved — or, on any
/// error, nothing at all.
pub open spec fn claim_post(
    pre: MarketState,
    post: MarketState,
    caller: u64,
    market_id: u64,
    r: Result<u128, MarketError>,
) -> bool {
    &&& (claim_check(pre.markets@, pre.positions@, caller, market_id) matches Some(e) ==> r
        == Err::<u128, MarketError>(e))
    &&& (r is Err ==> post == pre)
    &&& (claim_check(pre.markets@, pre.positions@, caller, market_id) is None ==> ({
        let m = pre.markets@[market_id as int];
        let p = position_of(pre.positions@, caller, market_id).unwrap();
        &&& (r is Ok || r == Err::<u128, MarketError>(MarketError::ArithmeticOverflow))
        &&& (m.yes_pool + m.no_pool <= u128::MAX && mul_div_exact(
            winning_shares_of(p, m.outcome.unwrap()),
            (m.yes_pool + m.no_pool) as u128,
            total_winning_shares_of(m, m.outcome.unwrap()),
        ) ==> r == Ok::<u128, MarketError>(claim_payout_quot(m, p) as u128))
    }))
    &&& (r matches Ok(payout) ==> ({
        let m = pre.markets@[market_id as int];
        let p = position_of(pre.positions@, caller, market_id).unwrap();
        &&& claim_check(pre.markets@, pre.positions@, caller, market_id) is None
        &&& m.yes_pool + m.no_pool <= u128::MAX
        &&& payout == mul_div_ladder(
            winning_shares_of(p, m.outcome.unwrap()),
            (m.yes_pool + m.no_pool) as u128,
            total_winning_shares_of(m, m.outcome.unwrap()),
        )
        &&& post.markets@ == pre.markets@
        &&& post.combos@ == pre.combos@
        &&& post.total_volume == pre.total_volume
        &&& post.positions@.len() == pre.positions@.len()
        &&& position_of(post.positions@, caller, market_id) == Some(
            Position { claimed: true, ..p },
        )
        &&& (forall|o: u64, mid2: u64|
            !(o == caller && mid2 == market_id) ==> #[trigger] position_of(
                post.positions@,
                o,
                mid2,
            ) == position_of(pre.positions@, o, mid2))
        &&& (forall|mid2: u64|
            #[trigger] sum_yes_shares(post.positions@, mid2) == sum_yes_shares(
                pre.positions@,
                mid2,
            ))
        &&& (forall|mid2: u64|
            #[trigger] sum_no_shares(post.positions@, mid2) == sum_no_shares(pre.positions@, mid2))
    }))
}

/// Everything `create_combo` promises: validation errors per `combo_check`;
/// success owed on the exact-arithmetic domain while ids remain; on success a
/// fresh active combo whose legs snapshot the markets' implied probabilities
/// (exact values on the exact domain) and whose payout multiplies the stake
/// by the product of the reciprocal probabilities — and nothing else moved.
pub open spec fn create_combo_post(
    pre: MarketState,
    post: MarketState,
    caller: u64,
    label: String,
    legs: Vec<LegRequest>,
    stake: u128,
    r: Result<u64, MarketError>,
) -> bool {
    &&& (combo_check(pre.markets@, legs@) matches Some(e) ==> r == Err::<u64, MarketError>(e))
    &&& (r is Err ==> post == pre)
    &&& (combo_check(pre.markets@, legs@) is None ==> ({
        &&& (r is Ok || r == Err::<u64, MarketError>(MarketError::ArithmeticOverflow) || r
            == Err::<u64, MarketError>(MarketError::DivisionByZero))
        &&& (combo_odds_exact(pre.markets@, legs@, legs@.len() as int) && mul_div_exact(
            stake,
            combined_odds_rec(pre.markets@, legs@, legs@.len() as int) as u128,
            SCALE,
        ) && pre.combos@.len() < u64::MAX ==> r == Ok::<u64, MarketError>(pre.next_combo_id))
    }))
    &&& (r matches Ok(id) ==> ({
        let c = post.combos@[id as int];
        &&& id == pre.combos@.len()
        &&& post.combos@.len() == pre.combos@.len() + 1
        &&& (forall|k: int|
            0 <= k < pre.combos@.len() ==> post.combos@[k] == #[trigger] pre.combos@[k])
        &&& c.id == id
        &&& c.owner == caller
        &&& c.label == label
        &&& c.stake == stake
        &&& c.status is Active
        &&& c.legs@.len() == legs@.len()
        &&& (forall|j: int|
            0 <= j < legs@.len() ==> {
                let bl = #[trigger] c.legs@[j];
                bl.market_id == legs@[j].market_id && bl.prediction == legs@[j].prediction
                    && !bl.resolved && bl.won is None
            })
        &&& (combo_odds_exact(pre.markets@, legs@, legs@.len() as int) ==> (forall|j: int|
            0 <= j < legs@.len() ==> (#[trigger] c.legs@[j]).odds == leg_odds_quot(
                pre.markets@[legs@[j].market_id as int].yes_pool,
                pre.markets@[legs@[j].market_id as int].no_pool,
                legs@[j].prediction,
            )))
        &&& (combo_odds_exact(pre.markets@, legs@, legs@.len() as int) && mul_div_exact(
            stake,
            combined_odds_rec(pre.markets@, legs@, legs@.len() as int) as u128,
            SCALE,
        ) ==> c.potential_payout == mul_div_quot(
            stake as int,
            combined_odds_rec(pre.markets@, legs@, legs@.len() as int),
            SCALE as int,
        ))
        &&& post.markets@ == pre.markets@
        &&& post.positions@ == pre.positions@
        &&& post.total_volume == pre.total_volume
    }))
}

/// Everything `cancel_combo` promises: the verdict of `cancel_check` decides
/// exactly, and on success the combo is marked cancelled with everything else
/// untouched.
pub open spec fn cancel_post(
    pre: MarketState,
    post: MarketState,
    caller: u64,
    combo_id: u64,
    r: Result<(), MarketError>,
) -> bool {
    &&& (cancel_check(pre.combos@, caller, combo_id) matches Some(e) ==> r == Err::<
        (),
        MarketError,
    >(e))
    &&& (cancel_check(pre.combos@, caller, combo_id) is None <==> r == Ok::<(), MarketError>(()))
    &&& (r is Err ==> post == pre)
    &&& (r is Ok ==> ({
        let c = pre.combos@[combo_id as int];
        &&& post.combos@ == pre.combos@.update(
            combo_id as int,
            Combo { status: ComboStatus::Cancelled, ..c },
        )
        &&& post.markets@ == pre.markets@
        &&& post.positions@ == pre.positions@
        &&& post.total_volume == pre.total_volume
    }))
}

/// The whole ledger. Markets and combos are identified by their dense index;
/// the explicit counters advance in lockstep with the stores they feed.
pub struct MarketState {
    /// All markets, indexed by id.
    pub markets: Vec<Market>,
    /// All positions; at most one per (owner, market) pair.
    pub positions: Vec<Position>,
    /// All combos, indexed by id.
    pub combos: Vec<Combo>,
    /// The id the next created market receives.
    pub next_market_id: u64,
    /// The id the next created combo receives.
    pub next_combo_id: u64,
    /// Cumulative traded value across all markets.
    pub total_volume: u128,
}

impl MarketState {
    /// The ledger's invariant: counters match the stores, ids are dense,
    /// every market and combo is internally well-formed, positions are
    /// uniquely keyed and reference stored markets, and the books balance —
    /// each market's share totals equal its creation seed plus the shares its
    /// positions actually hold, so no share exists on one side of the books
    /// without the other.
    pub open spec fn wf(&self) -> bool {
        &&& self.next_market_id == self.markets@.len()
        &&& self.next_combo_id == self.combos@.len()
        &&& forall|i: int| 0 <= i < self.markets@.len() ==> (#[trigger] self.markets@[i]).id == i
        &&& forall|i: int| 0 <= i < self.markets@.len() ==> (#[trigger] self.markets@[i]).wf()
        &&& forall|i: int, k: int|
            0 <= i < k < self.positions@.len() ==> !((#[trigger] self.positions@[i]).owner == (
            #[trigger] self.positions@[k]).owner && self.positions@[i].market_id
                == self.positions@[k].market_id)
        &&& forall|i: int|
            0 <= i < self.positions@.len() ==> (#[trigger] self.positions@[i]).market_id
                < self.markets@.len()
        &&& forall|mid: u64|
            mid < self.markets@.len() ==> #[trigger] sum_yes_shares(self.positions@, mid)
                + self.markets@[mid as int].seed_shares@
                == self.markets@[mid as int].total_yes_shares
        &&& forall|mid: u64|
            mid < self.markets@.len() ==> #[trigger] sum_no_shares(self.positions@, mid)
                + self.markets@[mid as int].seed_shares@
                == self.markets@[mid as int].total_no_shares
        &&& forall|i: int| 0 <= i < self.combos@.len() ==> (#[trigger] self.combos@[i]).id == i
        &&& forall|i: int|
            0 <= i < self.combos@.len() ==> (#[trigger] self.combos@[i]).wf(
                self.markets@.len() as int,
            )
    }

    /// A fresh ledger: nothing stored, counters at zero.
    pub fn new() -> (s: MarketState)
        ensures
            s.wf(),
            s.markets@.len() == 0,
            s.positions@.len() == 0,
            s.combos@.len() == 0,
            s.next_market_id == 0,
            s.next_combo_id == 0,
            s.total_volume == 0,
    {
        MarketState {
            markets: Vec::new(),
            positions: Vec::new(),
            combos: Vec::new(),
            next_market_id: 0,
            next_combo_id: 0,
            total_volume: 0,
        }
    }

    /// Opens a new market. The supplied liquidity is split evenly between the
    /// two pools, and the share totals are seeded to match the pools. The only
    /// failure is exhaustion of the id space.
    pub fn create_market(
        &mut self,
        caller: u64,
        timestamp: u64,
        question: String,
        categories: Vec<String>,
        end_time: u64,
        initial_liquidity: u128,
    ) -> (r: Result<u64, MarketError>)
        requires
            old(self).wf(),
        ensures
            final(self).wf(),
            create_market_post(
                *old(self),
                *final(self),
                caller,
                timestamp,
                question,
                categories,
                end_time,
                initial_liquidity,
                r,
            ),
    {
        if self.next_market_id == u64::MAX {
            return Err(MarketError::ArithmeticOverflow);
        }
        let id = self.next_market_id;
        let half = initial_liquidity / 2;
        let market = Market {
            id,
            creator: caller,
            question,
            categories,
            end_time,
            created_at: timestamp,
            yes_pool: half,
            no_pool: half,
            total_yes_shares: half,
            total_no_shares: half,
            resolved: false,
            outcome: None,
            volume: 0,
            seed_shares: Ghost(half),
        };
        self.markets.push(market);
        self.next_market_id = id + 1;
        proof {
            let ps = self.positions@;
            let n = self.markets@.len();
            assert forall|mid: u64| mid < n implies #[trigger] sum_yes_shares(ps, mid)
                + self.markets@[mid as int].seed_shares@
                == self.markets@[mid as int].total_yes_shares by {
                if mid < n - 1 {
                    assert(self.markets@[mid as int] == old(self).markets@[mid as int]);
                } else {
                    assert forall|k: int| 0 <= k < ps.len() implies (#[trigger] ps[k]).market_id
                        != mid by {}
                    lemma_sum_shares_no_match(ps, mid);
                }
            }
            assert forall|mid: u64| mid < n implies #[trigger] sum_no_shares(ps, mid)
                + self.markets@[mid as int].seed_shares@
                == self.markets@[mid as int].total_no_shares by {
                if mid < n - 1 {
                    assert(self.markets@[mid as int] == old(self).markets@[mid as int]);
                } else {
                    assert forall|k: int| 0 <= k < ps.len() implies (#[trigger] ps[k]).market_id
                        != mid by {}
                    lemma_sum_shares_no_match(ps, mid);
                }
            }
            assert forall|i: int| 0 <= i < self.combos@.len() implies (
            #[trigger] self.combos@[i]).wf(n as int) by {
                assert(old(self).combos@[i].wf(n as int - 1));
            }
        }
        Ok(id)
    }
    /// Buys `shares` of one side against the market's pool: prices the trade
    /// with the constant-product formula, enforces the caller's cost bound,
    /// then moves pools, share totals, volumes and the caller's position in
    /// one atomic step.
    pub fn buy_shares(
        &mut self,
        caller: u64,
        timestamp: u64,
        market_id: u64,
        is_yes: bool,
        shares: u128,
        max_cost: u128,
    ) -> (r: Result<u128, MarketError>)
        requires
            old(self).wf(),
        ensures
            final(self).wf(),
            buy_post(
                *old(self),
                *final(self),
                caller,
                timestamp,
                market_id,
                is_yes,
                shares,
                max_cost,
                r,
            ),
    {
        if market_id >= self.markets.len() as u64 {
            return Err(MarketError::NotFound(Entity::Market));
        }
        let idx = market_id as usize;
        if self.markets[idx].resolved {
            return Err(MarketError::AlreadyResolved);
        }
        if timestamp > self.markets[idx].end_time {
            return Err(MarketError::MarketEnded);
        }
        let (pool_in, pool_out) = if is_yes {
            (self.markets[idx].no_pool, self.markets[idx].yes_pool)
        } else {
            (self.markets[idx].yes_pool, self.markets[idx].no_pool)
        };
        let cost = match cost_to_buy(pool_in, pool_out, shares) {
            Ok(c) => c,
            Err(e) => {
                return Err(e);
            },
        };
        if cost > max_cost {
            return Err(MarketError::CostExceedsLimit);
        }
        let new_pool_in = match pool_in.checked_add(cost) {
            Some(v) => v,
            None => {
                return Err(MarketError::ArithmeticOverflow);
            },
        };
        let new_pool_out = pool_out - shares;
        let old_total_shares = if is_yes {
            self.markets[idx].total_yes_shares
        } else {
            self.markets[idx].total_no_shares
        };
        let new_total_shares = match old_total_shares.checked_add(shares) {
            Some(v) => v,
            None => {
                return Err(MarketError::ArithmeticOverflow);
            },
        };
        let new_volume = match self.markets[idx].volume.checked_add(cost) {
            Some(v) => v,
            None => {
                return Err(MarketError::ArithmeticOverflow);
            },
        };
        let new_total_volume = match self.total_volume.checked_add(cost) {
            Some(v) => v,
            None => {
                return Err(MarketError::ArithmeticOverflow);
            },
        };
        let pos_idx = find_position(&self.positions, caller, market_id);
        let new_held = match pos_idx {
            Some(i) => {
                let held = if is_yes {
                    self.positions[i].yes_shares
                } else {
                    self.positions[i].no_shares
                };
                match held.checked_add(shares) {
                    Some(v) => v,
                    None => {
                        return Err(MarketError::ArithmeticOverflow);
                    },
                }
            },
            None => shares,
        };
        // Every fallible step is behind us: apply all mutations.
        let ghost old_markets = self.markets@;
        let ghost old_positions = self.positions@;
        let mut market = self.markets.remove(idx);
        if is_yes {
            market.no_pool = new_pool_in;
            market.yes_pool = new_pool_out;
            market.total_yes_shares = new_total_shares;
        } else {
            market.yes_pool = new_pool_in;
            market.no_pool = new_pool_out;
            market.total_no_shares = new_total_shares;
        }
        market.volume = new_volume;
        self.markets.insert(idx, market);
        proof {
            lemma_remove_insert_is_update(old_markets, idx as int, self.markets@[idx as int]);
        }
        match pos_idx {
            Some(i) => {
                let p = self.positions.remove(i);
                let p2 = if is_yes {
                    Position { yes_shares: new_held, ..p }
                } else {
                    Position { no_shares: new_held, ..p }
                };
                self.positions.insert(i, p2);
                proof {
                    lemma_remove_insert_is_update(old_positions, i as int, p2);
                    lemma_sum_shares_update(old_positions, i as int, p2, market_id);
                    lemma_position_of_index(self.positions@, i as int, caller, market_id);
                    assert forall|o: u64, mid2: u64| !(o == caller && mid2 == market_id) implies
                        #[trigger] position_of(self.positions@, o, mid2) == position_of(
                        old_positions,
                        o,
                        mid2,
                    ) by {
                        lemma_position_of_update_other(old_positions, i as int, p2, o, mid2);
                    }
                    assert forall|mid2: u64| mid2 != market_id implies #[trigger] sum_yes_shares(
                        self.positions@,
                        mid2,
                    ) == sum_yes_shares(old_positions, mid2) by {
                        lemma_sum_shares_update(old_positions, i as int, p2, mid2);
                    }
                    assert forall|mid2: u64| mid2 != market_id implies #[trigger] sum_no_shares(
                        self.positions@,
                        mid2,
                    ) == sum_no_shares(old_positions, mid2) by {
                        lemma_sum_shares_update(old_positions, i as int, p2, mid2);
                    }
                }
            },
            None => {
                let p2 = Position {
                    market_id,
                    owner: caller,
                    yes_shares: if is_yes {
                        shares
                    } else {
                        0
                    },
                    no_shares: if is_yes {
                        0
                    } else {
                        shares
                    },
                    claimed: false,
                };
                self.positions.push(p2);
                proof {
                    lemma_sum_shares_push(old_positions, p2, market_id);
                    lemma_position_of_index(
                        self.positions@,
                        old_positions.len() as int,
                        caller,
                        market_id,
                    );
                    assert forall|o: u64, mid2: u64| !(o == caller && mid2 == market_id) implies
                        #[trigger] position_of(self.positions@, o, mid2) == position_of(
                        old_positions,
                        o,
                        mid2,
                    ) by {
                        lemma_position_of_push_other(old_positions, p2, o, mid2);
                    }
                    assert forall|mid2: u64| mid2 != market_id implies #[trigger] sum_yes_shares(
                        self.positions@,
                        mid2,
                    ) == sum_yes_shares(old_positions, mid2) by {
                        lemma_sum_shares_push(old_positions, p2, mid2);
                    }
                    assert forall|mid2: u64| mid2 != market_id implies #[trigger] sum_no_shares(
                        self.positions@,
                        mid2,
                    ) == sum_no_shares(old_positions, mid2) by {
                        lemma_sum_shares_push(old_positions, p2, mid2);
                    }
                }
            },
        }
        self.total_volume = new_total_volume;
        proof {
            let n = self.markets@.len();
            assert(self.markets@ == old(self).markets@.update(
                market_id as int,
                self.markets@[market_id as int],
            ));
            assert(sum_yes_shares(self.positions@, market_id) == sum_yes_shares(
                old(self).positions@,
                market_id,
            ) + (if is_yes {
                shares as int
            } else {
                0
            }));
            assert(sum_no_shares(self.positions@, market_id) == sum_no_shares(
                old(self).positions@,
                market_id,
            ) + (if is_yes {
                0
            } else {
                shares as int
            }));
            assert(self.markets@[market_id as int].total_yes_shares
                == old(self).markets@[market_id as int].total_yes_shares + (if is_yes {
                shares as int
            } else {
                0
            }));
            assert(self.markets@[market_id as int].total_no_shares
                == old(self).markets@[market_id as int].total_no_shares + (if is_yes {
                0
            } else {
                shares as int
            }));
            assert forall|mid: u64| mid < n implies #[trigger] sum_yes_shares(
                self.positions@,
                mid,
            ) + self.markets@[mid as int].seed_shares@
                == self.markets@[mid as int].total_yes_shares by {
                if mid != market_id {
                    assert(self.markets@[mid as int] == old(self).markets@[mid as int]);
                } else {
                    assert(sum_yes_shares(old(self).positions@, mid) + old(
                        self,
                    ).markets@[mid as int].seed_shares@ == old(
                        self,
                    ).markets@[mid as int].total_yes_shares);
                }
            }
            assert forall|mid: u64| mid < n implies #[trigger] sum_no_shares(self.positions@, mid)
                + self.markets@[mid as int].seed_shares@
                == self.markets@[mid as int].total_no_shares by {
                if mid != market_id {
                    assert(self.markets@[mid as int] == old(self).markets@[mid as int]);
                } else {
                    assert(sum_no_shares(old(self).positions@, mid) + old(
                        self,
                    ).markets@[mid as int].seed_shares@ == old(
                        self,
                    ).markets@[mid as int].total_no_shares);
                }
            }
        }
        Ok(cost)
    }
    /// Sells `shares` of one side back to the market's pool: prices the trade
    /// with the symmetric constant-product formula, enforces the caller's
    /// proceeds bound, and refuses to dispose of shares the caller does not
    /// hold. Selling stays possible after the end time, until resolution.
    pub fn sell_shares(
        &mut self,
        caller: u64,
        market_id: u64,
        is_yes: bool,
        shares: u128,
        min_proceeds: u128,
    ) -> (r: Result<u128, MarketError>)
        requires
            old(self).wf(),
        ensures
            final(self).wf(),
            sell_post(
                *old(self),
                *final(self),
                caller,
                market_id,
                is_yes,
                shares,
                min_proceeds,
                r,
            ),    {
        if market_id >= self.markets.len() as u64 {
            return Err(MarketError::NotFound(Entity::Market));
        }
        let idx = market_id as usize;
        if self.markets[idx].resolved {
            return Err(MarketError::AlreadyResolved);
        }
        let (side_pool, money_pool) = if is_yes {
            (self.markets[idx].yes_pool, self.markets[idx].no_pool)
        } else {
            (self.markets[idx].no_pool, self.markets[idx].yes_pool)
        };
        let pos_idx = find_position(&self.positions, caller, market_id);
        let held = match pos_idx {
            Some(i) => {
                if is_yes {
                    self.positions[i].yes_shares
                } else {
                    self.positions[i].no_shares
                }
            },
            None => 0,
        };
        if shares > held {
            return Err(MarketError::InsufficientLiquidity);
        }
        let proceeds = match proceeds_from_sell(side_pool, money_pool, shares) {
            Ok(p) => p,
            Err(e) => {
                return Err(e);
            },
        };
        if proceeds < min_proceeds {
            return Err(MarketError::ProceedsBelowMinimum);
        }
        proof {
            lemma_mul_div_le_left(money_pool as int, shares as int, side_pool + shares);
        }
        let new_money_pool = match money_pool.checked_sub(proceeds) {
            Some(v) => v,
            None => {
                return Err(MarketError::ArithmeticOverflow);
            },
        };
        let new_side_pool = side_pool + shares;
        proof {
            if let Some(i) = pos_idx {
                lemma_contrib_le_sum(self.positions@, i as int, market_id);
            }
        }
        let old_total_shares = if is_yes {
            self.markets[idx].total_yes_shares
        } else {
            self.markets[idx].total_no_shares
        };
        let new_total_shares = old_total_shares - shares;
        let new_volume = match self.markets[idx].volume.checked_add(proceeds) {
            Some(v) => v,
            None => {
                return Err(MarketError::ArithmeticOverflow);
            },
        };
        let new_total_volume = match self.total_volume.checked_add(proceeds) {
            Some(v) => v,
            None => {
                return Err(MarketError::ArithmeticOverflow);
            },
        };
        // Every fallible step is behind us: apply all mutations.
        let ghost old_markets = self.markets@;
        let ghost old_positions = self.positions@;
        let mut market = self.markets.remove(idx);
        if is_yes {
            market.yes_pool = new_side_pool;
            market.no_pool = new_money_pool;
            market.total_yes_shares = new_total_shares;
        } else {
            market.no_pool = new_side_pool;
            market.yes_pool = new_money_pool;
            market.total_no_shares = new_total_shares;
        }
        market.volume = new_volume;
        self.markets.insert(idx, market);
        proof {
            lemma_remove_insert_is_update(old_markets, idx as int, self.markets@[idx as int]);
        }
        match pos_idx {
            Some(i) => {
                let p = self.positions.remove(i);
                let p2 = if is_yes {
                    Position { yes_shares: p.yes_shares - shares, ..p }
                } else {
                    Position { no_shares: p.no_shares - shares, ..p }
                };
                self.positions.insert(i, p2);
                proof {
                    lemma_remove_insert_is_update(old_positions, i as int, p2);
                    lemma_sum_shares_update(old_positions, i as int, p2, market_id);
                    lemma_position_of_index(self.positions@, i as int, caller, market_id);
                    assert forall|o: u64, mid2: u64| !(o == caller && mid2 == market_id) implies
                        #[trigger] position_of(self.positions@, o, mid2) == position_of(
                        old_positions,
                        o,
                        mid2,
                    ) by {
                        lemma_position_of_update_other(old_positions, i as int, p2, o, mid2);
                    }
                    assert forall|mid2: u64| mid2 != market_id implies #[trigger] sum_yes_shares(
                        self.positions@,
                        mid2,
                    ) == sum_yes_shares(old_positions, mid2) by {
                        lemma_sum_shares_update(old_positions, i as int, p2, mid2);
                    }
                    assert forall|mid2: u64| mid2 != market_id implies #[trigger] sum_no_shares(
                        self.positions@,
                        mid2,
                    ) == sum_no_shares(old_positions, mid2) by {
                        lemma_sum_shares_update(old_positions, i as int, p2, mid2);
                    }
                }
            },
            None => {},
        }
        self.total_volume = new_total_volume;
        proof {
            let n = self.markets@.len();
            assert(self.markets@ == old(self).markets@.update(
                market_id as int,
                self.markets@[market_id as int],
            ));
            assert(sum_yes_shares(self.positions@, market_id) == sum_yes_shares(
                old(self).positions@,
                market_id,
            ) - (if is_yes {
                shares as int
            } else {
                0
            }));
            assert(sum_no_shares(self.positions@, market_id) == sum_no_shares(
                old(self).positions@,
                market_id,
            ) - (if is_yes {
                0
            } else {
                shares as int
            }));
            assert forall|mid: u64| mid < n implies #[trigger] sum_yes_shares(
                self.positions@,
                mid,
            ) + self.markets@[mid as int].seed_shares@
                == self.markets@[mid as int].total_yes_shares by {
                if mid != market_id {
                    assert(self.markets@[mid as int] == old(self).markets@[mid as int]);
                } else {
                    assert(sum_yes_shares(old(self).positions@, mid) + old(
                        self,
                    ).markets@[mid as int].seed_shares@ == old(
                        self,
                    ).markets@[mid as int].total_yes_shares);
                }
            }
            assert forall|mid: u64| mid < n implies #[trigger] sum_no_shares(self.positions@, mid)
                + self.markets@[mid as int].seed_shares@
                == self.markets@[mid as int].total_no_shares by {
                if mid != market_id {
                    assert(self.markets@[mid as int] == old(self).markets@[mid as int]);
                } else {
                    assert(sum_no_shares(old(self).positions@, mid) + old(
                        self,
                    ).markets@[mid as int].seed_shares@ == old(
                        self,
                    ).markets@[mid as int].total_no_shares);
                }
            }
        }
        Ok(proceeds)
    }
    /// Resolves a market to its final outcome and synchronously cascades the
    /// resolution over every open combo: matching open legs record whether
    /// their prediction held, and each touched combo's status is recomputed.
    /// Only the market's creator may resolve, and only once.
    pub fn resolve_market(&mut self, caller: u64, market_id: u64, outcome: bool) -> (r: Result<
        (),
        MarketError,
    >)
        requires
            old(self).wf(),
        ensures
            final(self).wf(),
            resolve_post(*old(self), *final(self), caller, market_id, outcome, r),    {
        if market_id >= self.markets.len() as u64 {
            return Err(MarketError::NotFound(Entity::Market));
        }
        let idx = market_id as usize;
        if self.markets[idx].resolved {
            return Err(MarketError::AlreadyResolved);
        }
        if self.markets[idx].creator != caller {
            return Err(MarketError::NotAuthorized);
        }
        let ghost old_markets = self.markets@;
        let mut market = self.markets.remove(idx);
        market.resolved = true;
        market.outcome = Some(outcome);
        self.markets.insert(idx, market);
        proof {
            lemma_remove_insert_is_update(old_markets, idx as int, self.markets@[idx as int]);
        }
        // The resolution cascade: scan every combo that is still open.
        let ghost old_combos = self.combos@;
        let ghost markets_after = self.markets@;
        let mut i: usize = 0;
        while i < self.combos.len()
            invariant
                i <= self.combos@.len(),
                self.combos@.len() == old_combos.len(),
                self.markets@ == markets_after,
                self.positions@ == old(self).positions@,
                self.total_volume == old(self).total_volume,
                self.next_market_id == old(self).next_market_id,
                self.next_combo_id == old(self).next_combo_id,
                forall|k: int|
                    0 <= k < i ==> combo_cascaded(
                        #[trigger] old_combos[k],
                        self.combos@[k],
                        market_id,
                        outcome,
                    ),
                forall|k: int|
                    i <= k < old_combos.len() ==> self.combos@[k] == #[trigger] old_combos[k],
            decreases self.combos@.len() - i,
        {
            let ghost combos_pre = self.combos@;
            let open = match self.combos[i].status {
                ComboStatus::Active => true,
                ComboStatus::PartiallyResolved => true,
                _ => false,
            };
            if open {
                let c = self.combos.remove(i);
                let legs2 = resolve_legs(&c.legs, market_id, outcome);
                let status2 = status_of_legs(&legs2);
                let c2 = Combo { legs: legs2, status: status2, ..c };
                self.combos.insert(i, c2);
                proof {
                    lemma_remove_insert_is_update(combos_pre, i as int, self.combos@[i as int]);
                }
            }
            i += 1;
        }
        proof {
            let n = self.markets@.len();
            assert forall|mid: u64| mid < n implies #[trigger] sum_yes_shares(
                self.positions@,
                mid,
            ) + self.markets@[mid as int].seed_shares@
                == self.markets@[mid as int].total_yes_shares by {
                assert(self.markets@[mid as int].total_yes_shares == old(
                    self,
                ).markets@[mid as int].total_yes_shares);
            }
            assert forall|mid: u64| mid < n implies #[trigger] sum_no_shares(self.positions@, mid)
                + self.markets@[mid as int].seed_shares@
                == self.markets@[mid as int].total_no_shares by {
                assert(self.markets@[mid as int].total_no_shares == old(
                    self,
                ).markets@[mid as int].total_no_shares);
            }
            assert forall|k: int| 0 <= k < self.markets@.len() implies (
            #[trigger] self.markets@[k]).id == k && self.markets@[k].wf() by {
                if k != market_id {
                    assert(self.markets@[k] == old(self).markets@[k]);
                }
            }
            assert forall|k: int| 0 <= k < self.combos@.len() implies (
            #[trigger] self.combos@[k]).id == k by {
                assert(combo_cascaded(old(self).combos@[k], self.combos@[k], market_id, outcome));
            }
            assert forall|k: int| 0 <= k < self.combos@.len() implies (
            #[trigger] self.combos@[k]).wf(n as int) by {
                let c = old(self).combos@[k];
                let c2 = self.combos@[k];
                assert(combo_cascaded(c, c2, market_id, outcome));
                assert(c.wf(n as int));
                if c.status is Active || c.status is PartiallyResolved {
                    assert forall|j: int| 0 <= j < c2.legs@.len() implies (
                    #[trigger] c2.legs@[j]).market_id < n by {
                        assert(c2.legs@[j] == leg_after_resolution(c.legs@[j], market_id, outcome));
                    }
                }
            }
        }
        Ok(())
    }
    /// Pays out a resolved market to the caller: the winner's proportional
    /// slice of the entire remaining pool, `winning_shares * (yes_pool +
    /// no_pool) / total_winning_shares`. The position's `claimed` flag flips
    /// before success is signalled, so a position is paid at most once.
    pub fn claim_winnings(&mut self, caller: u64, market_id: u64) -> (r: Result<u128, MarketError>)
        requires
            old(self).wf(),
        ensures
            final(self).wf(),
            claim_post(*old(self), *final(self), caller, market_id, r),    {
        if market_id >= self.markets.len() as u64 {
            return Err(MarketError::NotFound(Entity::Market));
        }
        let idx = market_id as usize;
        if !self.markets[idx].resolved {
            return Err(MarketError::OutcomeUnset);
        }
        let pos_idx = match find_position(&self.positions, caller, market_id) {
            Some(i) => i,
            None => {
                return Err(MarketError::NotFound(Entity::Position));
            },
        };
        let p = self.positions[pos_idx];
        if p.claimed {
            return Err(MarketError::AlreadyClaimed);
        }
        let o = match self.markets[idx].outcome {
            Some(o) => o,
            None => {
                return Err(MarketError::OutcomeUnset);
            },
        };
        let winning = if o {
            p.yes_shares
        } else {
            p.no_shares
        };
        if winning == 0 {
            return Err(MarketError::NoWinningShares);
        }
        let total_pool = match self.markets[idx].yes_pool.checked_add(self.markets[idx].no_pool) {
            Some(t) => t,
            None => {
                return Err(MarketError::ArithmeticOverflow);
            },
        };
        let total_winning = if o {
            self.markets[idx].total_yes_shares
        } else {
            self.markets[idx].total_no_shares
        };
        proof {
            // The caller's winning shares are counted in the market's total,
            // so the divisor is positive.
            lemma_contrib_le_sum(self.positions@, pos_idx as int, market_id);
        }
        let payout = match safe_mul_div(winning, total_pool, total_winning) {
            Ok(v) => v,
            Err(e) => {
                return Err(e);
            },
        };
        let ghost old_positions = self.positions@;
        let pr = self.positions.remove(pos_idx);
        let p2 = Position { claimed: true, ..pr };
        self.positions.insert(pos_idx, p2);
        proof {
            lemma_remove_insert_is_update(old_positions, pos_idx as int, p2);
            lemma_position_of_index(self.positions@, pos_idx as int, caller, market_id);
            assert forall|ow: u64, mid2: u64| !(ow == caller && mid2 == market_id) implies
                #[trigger] position_of(self.positions@, ow, mid2) == position_of(
                old_positions,
                ow,
                mid2,
            ) by {
                lemma_position_of_update_other(old_positions, pos_idx as int, p2, ow, mid2);
            }
            assert forall|mid2: u64| #[trigger] sum_yes_shares(self.positions@, mid2)
                == sum_yes_shares(old_positions, mid2) by {
                lemma_sum_shares_update(old_positions, pos_idx as int, p2, mid2);
            }
            assert forall|mid2: u64| #[trigger] sum_no_shares(self.positions@, mid2)
                == sum_no_shares(old_positions, mid2) by {
                lemma_sum_shares_update(old_positions, pos_idx as int, p2, mid2);
            }
        }
        Ok(payout)
    }
    /// Stakes a combo across several markets. Every leg snapshots the implied
    /// probability of its predicted side; the potential payout multiplies the
    /// stake by the product of the legs' reciprocal probabilities, accumulated
    /// by iterated fixed-point division starting from `SCALE`.
    pub fn create_combo(
        &mut self,
        caller: u64,
        label: String,
        legs: Vec<LegRequest>,
        stake: u128,
    ) -> (r: Result<u64, MarketError>)
        requires
            old(self).wf(),
        ensures
            final(self).wf(),
            create_combo_post(*old(self), *final(self), caller, label, legs, stake, r),    {
        if legs.len() < 2 || legs.len() > 10 {
            return Err(MarketError::InvalidLegCount);
        }
        let n = legs.len();
        // First pass: validate every leg before any arithmetic.
        let mut j: usize = 0;
        while j < n
            invariant
                j <= n,
                n == legs@.len(),
                2 <= n <= 10,
                old(self).wf(),
                *self == *old(self),
                combo_legs_check(self.markets@, legs@, j as int) is None,
            decreases n - j,
        {
            let l = legs[j];
            if l.market_id >= self.markets.len() as u64 {
                proof {
                    lemma_combo_legs_check_extend(
                        self.markets@,
                        legs@,
                        j as int + 1,
                        legs@.len() as int,
                    );
                }
                return Err(MarketError::NotFound(Entity::Market));
            }
            let midx = l.market_id as usize;
            if self.markets[midx].resolved {
                proof {
                    lemma_combo_legs_check_extend(
                        self.markets@,
                        legs@,
                        j as int + 1,
                        legs@.len() as int,
                    );
                }
                return Err(MarketError::AlreadyResolved);
            }
            if self.markets[midx].yes_pool == 0 && self.markets[midx].no_pool == 0 {
                proof {
                    lemma_combo_legs_check_extend(
                        self.markets@,
                        legs@,
                        j as int + 1,
                        legs@.len() as int,
                    );
                }
                return Err(MarketError::ZeroLiquidity);
            }
            j += 1;
        }
        if self.next_combo_id == u64::MAX {
            return Err(MarketError::ArithmeticOverflow);
        }
        proof {
            lemma_combo_legs_check_none(self.markets@, legs@, n as int);
        }
        // Second pass: snapshot each leg's odds and fold them together.
        let mut combined: u128 = SCALE;
        let mut built: Vec<ComboLeg> = Vec::new();
        let mut i: usize = 0;
        while i < n
            invariant
                i <= n,
                n == legs@.len(),
                2 <= n <= 10,
                old(self).wf(),
                *self == *old(self),
                self.next_combo_id < u64::MAX,
                combo_legs_check(self.markets@, legs@, n as int) is None,
                built@.len() == i,
                forall|k: int|
                    0 <= k < i ==> {
                        let bl = #[trigger] built@[k];
                        bl.market_id == legs@[k].market_id && bl.prediction == legs@[k].prediction
                            && !bl.resolved && bl.won is None
                    },
                combo_odds_exact(self.markets@, legs@, i as int) ==> combined == combined_odds_rec(
                    self.markets@,
                    legs@,
                    i as int,
                ),
                combo_odds_exact(self.markets@, legs@, i as int) ==> (forall|k: int|
                    0 <= k < i ==> (#[trigger] built@[k]).odds == leg_odds_quot(
                        self.markets@[legs@[k].market_id as int].yes_pool,
                        self.markets@[legs@[k].market_id as int].no_pool,
                        legs@[k].prediction,
                    )),
            decreases n - i,
        {
            let mlen = self.markets.len();
            proof {
                lemma_combo_legs_check_none(self.markets@, legs@, n as int);
                assert(legs@[i as int].market_id < self.markets@.len());
                assert(self.markets@.len() == mlen);
            }
            let l = legs[i];
            let midx = l.market_id as usize;
            let myes = self.markets[midx].yes_pool;
            let mno = self.markets[midx].no_pool;
            let ghost exact_here = combo_odds_exact(self.markets@, legs@, i as int + 1);
            proof {
                if combo_odds_exact(self.markets@, legs@, n as int) {
                    lemma_combo_odds_exact_prefix(self.markets@, legs@, i as int + 1, n as int);
                }
                if exact_here {
                    lemma_combo_odds_exact_prefix(self.markets@, legs@, i as int, i as int + 1);
                    assert(0 < myes + mno <= u128::MAX);
                    assert(mul_div_exact(
                        opposing_pool(myes, mno, legs@[i as int].prediction),
                        SCALE,
                        (myes + mno) as u128,
                    ));
                }
            }
            let lo = match leg_odds(myes, mno, l.prediction) {
                Ok(v) => v,
                Err(e) => {
                    proof {
                        assert(!exact_here);
                    }
                    return Err(e);
                },
            };
            proof {
                if exact_here {
                    assert(lo == leg_odds_quot(myes, mno, legs@[i as int].prediction) as u128);
                    assert(combined == combined_odds_rec(self.markets@, legs@, i as int));
                    assert(mul_div_exact(combined, SCALE, lo));
                }
            }
            let new_combined = match safe_mul_div(combined, SCALE, lo) {
                Ok(v) => v,
                Err(e) => {
                    proof {
                        assert(!exact_here);
                    }
                    return Err(e);
                },
            };
            built.push(
                ComboLeg {
                    market_id: l.market_id,
                    prediction: l.prediction,
                    odds: lo,
                    resolved: false,
                    won: None,
                },
            );
            combined = new_combined;
            i += 1;
            proof {
                if combo_odds_exact(self.markets@, legs@, i as int) {
                    assert(exact_here);
                    assert(combined_odds_rec(self.markets@, legs@, i as int) == mul_div_quot(
                        combined_odds_rec(self.markets@, legs@, i as int - 1),
                        SCALE as int,
                        leg_odds_quot(myes, mno, legs@[i as int - 1].prediction),
                    ));
                    assert(combined == combined_odds_rec(self.markets@, legs@, i as int));
                    assert forall|k: int| 0 <= k < i implies (#[trigger] built@[k]).odds
                        == leg_odds_quot(
                        self.markets@[legs@[k].market_id as int].yes_pool,
                        self.markets@[legs@[k].market_id as int].no_pool,
                        legs@[k].prediction,
                    ) by {
                        if k < i - 1 {
                            assert(combo_odds_exact(self.markets@, legs@, i as int - 1));
                        }
                    }
                }
            }
        }
        let payout = match safe_mul_div(stake, combined, SCALE) {
            Ok(v) => v,
            Err(e) => {
                return Err(e);
            },
        };
        let id = self.next_combo_id;
        let c = Combo {
            id,
            owner: caller,
            label,
            legs: built,
            stake,
            potential_payout: payout,
            status: ComboStatus::Active,
        };
        self.combos.push(c);
        self.next_combo_id = id + 1;
        proof {
            let nc = self.combos@[id as int];
            assert(!nc.legs@[0].resolved);
            assert(!any_resolved(nc.legs@));
            assert(!any_lost(nc.legs@)) by {
                assert(forall|k: int| 0 <= k < nc.legs@.len() ==> !(#[trigger] nc.legs@[k]).resolved);
            }
            assert(combo_status_of(nc.legs@) == ComboStatus::Active);
            assert forall|k: int| 0 <= k < self.combos@.len() implies (
            #[trigger] self.combos@[k]).wf(self.markets@.len() as int) by {
                if k < id {
                    assert(old(self).combos@[k].wf(self.markets@.len() as int));
                }
            }
        }
        Ok(id)
    }

    /// Withdraws an active combo. A combo stays cancellable only while none of
    /// its markets has settled; afterwards the stake is locked in.
    pub fn cancel_combo(&mut self, caller: u64, combo_id: u64) -> (r: Result<(), MarketError>)
        requires
            old(self).wf(),
        ensures
            final(self).wf(),
            cancel_post(*old(self), *final(self), caller, combo_id, r),    {
        if combo_id >= self.combos.len() as u64 {
            return Err(MarketError::NotFound(Entity::Combo));
        }
        let idx = combo_id as usize;
        if self.combos[idx].owner != caller {
            return Err(MarketError::NotAuthorized);
        }
        if any_leg_resolved(&self.combos[idx].legs) {
            return Err(MarketError::PartialResolutionPreventsCancel);
        }
        let is_active = match self.combos[idx].status {
            ComboStatus::Active => true,
            _ => false,
        };
        if !is_active {
            return Err(MarketError::NotCancellable);
        }
        let ghost old_combos = self.combos@;
        let mut c = self.combos.remove(idx);
        c.status = ComboStatus::Cancelled;
        self.combos.insert(idx, c);
        proof {
            lemma_remove_insert_is_update(old_combos, idx as int, self.combos@[idx as int]);
            assert forall|k: int| 0 <= k < self.combos@.len() implies (
            #[trigger] self.combos@[k]).wf(self.markets@.len() as int) by {
                assert(old(self).combos@[k].wf(self.markets@.len() as int));
            }
        }
        Ok(())
    }
}

/// Law: a position is paid out at most once. If a claim is about to succeed
/// (its validation verdict is clear) and the position is then recorded as
/// claimed — which is exactly what a successful claim does — any further
/// claim by the same owner against the same market is refused as
/// `AlreadyClaimed`, whatever else the ledger holds.
pub proof fn lemma_claim_at_most_once(
    markets: Seq<Market>,
    positions: Seq<Position>,
    positions2: Seq<Position>,
    caller: u64,
    market_id: u64,
)
    requires
        claim_check(markets, positions, caller, market_id) is None,
        position_of(positions2, caller, market_id) matches Some(p) && p.claimed,
    ensures
        claim_check(markets, positions2, caller, market_id) == Some(MarketError::AlreadyClaimed),
{
}

impl MarketState {
    /// The total number of markets ever created.
    pub fn market_count(&self) -> (r: u64)
        ensures
            r == self.next_market_id,
    {
        self.next_market_id
    }

    /// The cumulative traded value across all markets.
    pub fn total_volume(&self) -> (r: u128)
        ensures
            r == self.total_volume,
    {
        self.total_volume
    }

    /// All stored markets, by id.
    pub fn markets(&self) -> (r: &Vec<Market>)
        ensures
            r@ == self.markets@,
    {
        &self.markets
    }

    /// One market by id, if it exists.
    pub fn market(&self, market_id: u64) -> (r: Option<&Market>)
        ensures
            match r {
                Some(m) => market_id < self.markets@.len() && *m == self.markets@[market_id as int],
                None => market_id >= self.markets@.len(),
            },
    {
        if market_id >= self.markets.len() as u64 {
            None
        } else {
            Some(&self.markets[market_id as usize])
        }
    }

    /// The ids of the markets still open, ascending.
    pub fn active_markets(&self) -> (r: Vec<u64>)
        ensures
            forall|k: int|
                0 <= k < r@.len() ==> #[trigger] r@[k] < self.markets@.len()
                    && !self.markets@[r@[k] as int].resolved,
            forall|mid: u64|
                mid < self.markets@.len() && !self.markets@[mid as int].resolved
                    ==> #[trigger] r@.contains(mid),
            forall|k1: int, k2: int| 0 <= k1 < k2 < r@.len() ==> r@[k1] < r@[k2],
    {
        let mut out: Vec<u64> = Vec::new();
        let mut i: usize = 0;
        while i < self.markets.len()
            invariant
                i <= self.markets@.len(),
                forall|k: int|
                    0 <= k < out@.len() ==> #[trigger] out@[k] < i
                        && !self.markets@[out@[k] as int].resolved,
                forall|mid: u64|
                    mid < i && !self.markets@[mid as int].resolved ==> #[trigger] out@.contains(
                        mid,
                    ),
                forall|k1: int, k2: int| 0 <= k1 < k2 < out@.len() ==> out@[k1] < out@[k2],
            decreases self.markets@.len() - i,
        {
            let ghost out_pre = out@;
            if !self.markets[i].resolved {
                out.push(i as u64);
            }
            i += 1;
            proof {
                assert forall|mid: u64|
                    mid < i && !self.markets@[mid as int].resolved implies #[trigger] out@.contains(
                    mid,
                ) by {
                    if mid + 1 < i {
                        assert(out_pre.contains(mid));
                        let k = choose|k: int| 0 <= k < out_pre.len() && out_pre[k] == mid;
                        assert(out@[k] == mid);
                    } else {
                        assert(out@[out@.len() - 1] == mid);
                    }
                }
            }
        }
        out
    }

    /// The ids of the resolved markets, ascending.
    pub fn resolved_markets(&self) -> (r: Vec<u64>)
        ensures
            forall|k: int|
                0 <= k < r@.len() ==> #[trigger] r@[k] < self.markets@.len()
                    && self.markets@[r@[k] as int].resolved,
            forall|mid: u64|
                mid < self.markets@.len() && self.markets@[mid as int].resolved
                    ==> #[trigger] r@.contains(mid),
            forall|k1: int, k2: int| 0 <= k1 < k2 < r@.len() ==> r@[k1] < r@[k2],
    {
        let mut out: Vec<u64> = Vec::new();
        let mut i: usize = 0;
        while i < self.markets.len()
            invariant
                i <= self.markets@.len(),
                forall|k: int|
                    0 <= k < out@.len() ==> #[trigger] out@[k] < i
                        && self.markets@[out@[k] as int].resolved,
                forall|mid: u64|
                    mid < i && self.markets@[mid as int].resolved ==> #[trigger] out@.contains(mid),
                forall|k1: int, k2: int| 0 <= k1 < k2 < out@.len() ==> out@[k1] < out@[k2],
            decreases self.markets@.len() - i,
        {
            let ghost out_pre = out@;
            if self.markets[i].resolved {
                out.push(i as u64);
            }
            i += 1;
            proof {
                assert forall|mid: u64|
                    mid < i && self.markets@[mid as int].resolved implies #[trigger] out@.contains(
                    mid,
                ) by {
                    if mid + 1 < i {
                        assert(out_pre.contains(mid));
                        let k = choose|k: int| 0 <= k < out_pre.len() && out_pre[k] == mid;
                        assert(out@[k] == mid);
                    } else {
                        assert(out@[out@.len() - 1] == mid);
                    }
                }
            }
        }
        out
    }
}

/// Law: trades conserve the gap between a market's share totals and the
/// shares its positions actually hold. Both totals and position sums are
/// seeded apart at creation (the totals start at the pool seed, the sum at
/// zero) and every buy or sell moves them by the same amount — as the
/// operations' contracts state — so the difference never drifts: no share is
/// created for one side of the books without the other.
pub proof fn lemma_trade_conserves_share_gap(
    pre: MarketState,
    post: MarketState,
    market_id: u64,
    delta_yes: int,
    delta_no: int,
)
    requires
        market_id < pre.markets@.len(),
        post.markets@.len() == pre.markets@.len(),
        post.markets@[market_id as int].total_yes_shares
            == pre.markets@[market_id as int].total_yes_shares + delta_yes,
        post.markets@[market_id as int].total_no_shares
            == pre.markets@[market_id as int].total_no_shares + delta_no,
        sum_yes_shares(post.positions@, market_id) == sum_yes_shares(pre.positions@, market_id)
            + delta_yes,
        sum_no_shares(post.positions@, market_id) == sum_no_shares(pre.positions@, market_id)
            + delta_no,
    ensures
        post.markets@[market_id as int].total_yes_shares - sum_yes_shares(
            post.positions@,
            market_id,
        ) == pre.markets@[market_id as int].total_yes_shares - sum_yes_shares(
            pre.positions@,
            market_id,
        ),
        post.markets@[market_id as int].total_no_shares - sum_no_shares(post.positions@, market_id)
            == pre.markets@[market_id as int].total_no_shares - sum_no_shares(
            pre.positions@,
            market_id,
        ),
{
}

/// Finds the index of the position keyed by `(owner, market_id)`, if one
/// exists; the position found is the one `position_of` names.
pub fn find_position(positions: &Vec<Position>, owner: u64, market_id: u64) -> (r: Option<usize>)
    ensures
        match r {
            Some(i) => i < positions@.len() && positions@[i as int].owner == owner
                && positions@[i as int].market_id == market_id && position_of(
                positions@,
                owner,
                market_id,
            ) == Some(positions@[i as int]) && (forall|k: int|
                0 <= k < i ==> !((#[trigger] positions@[k]).owner == owner
                    && positions@[k].market_id == market_id)),
            None => position_of(positions@, owner, market_id) is None && (forall|k: int|
                0 <= k < positions@.len() ==> !((#[trigger] positions@[k]).owner == owner
                    && positions@[k].market_id == market_id)),
        },
{
    let mut i: usize = 0;
    while i < positions.len()
        invariant
            i <= positions.len(),
            forall|k: int|
                0 <= k < i ==> !((#[trigger] positions@[k]).owner == owner
                    && positions@[k].market_id == market_id),
        decreases positions.len() - i,
    {
        if positions[i].owner == owner && positions[i].market_id == market_id {
            proof {
                lemma_position_of_index(positions@, i as int, owner, market_id);
            }
            return Some(i);
        }
        i += 1;
    }
    proof {
        lemma_position_of_none(positions@, owner, market_id);
    }
    None
}

} // verus!
