use chronos_market::errors::{Entity, MarketError};
use chronos_market::interface::{Operation, OperationResponse};
use chronos_market::state::MarketState;

const ALICE: u64 = 1;
const BOB: u64 = 2;

fn market_with_liquidity(state: &mut MarketState, creator: u64, liquidity: u128) -> u64 {
    state
        .create_market(
            creator,
            10,
            String::from("will it rain tomorrow?"),
            vec![String::from("weather")],
            1_000,
            liquidity,
        )
        .unwrap()
}

#[test]
fn create_seeds_pools_at_half() {
    let mut state = MarketState::new();
    let id = market_with_liquidity(&mut state, ALICE, 1_000);
    assert_eq!(id, 0);
    let m = state.market(0).unwrap();
    assert_eq!(m.yes_pool, 500);
    assert_eq!(m.no_pool, 500);
    assert_eq!(m.total_yes_shares, 500);
    assert_eq!(m.total_no_shares, 500);
    assert_eq!(m.volume, 0);
    assert!(!m.resolved);
    assert_eq!(m.outcome, None);
    // odd liquidity floors: both pools get 500 out of 1001
    let id2 = market_with_liquidity(&mut state, ALICE, 1_001);
    assert_eq!(id2, 1);
    assert_eq!(state.market(1).unwrap().yes_pool, 500);
    assert_eq!(state.market_count(), 2);
}

#[test]
fn buy_scenario_exact_state() {
    let mut state = MarketState::new();
    market_with_liquidity(&mut state, ALICE, 1_000);
    let cost = state.buy_shares(BOB, 20, 0, true, 100, 1_000).unwrap();
    assert_eq!(cost, 125);
    let m = state.market(0).unwrap();
    assert_eq!(m.no_pool, 625);
    assert_eq!(m.yes_pool, 400);
    assert_eq!(m.total_yes_shares, 600);
    assert_eq!(m.total_no_shares, 500);
    assert_eq!(m.volume, 125);
    assert_eq!(state.total_volume(), 125);
}

#[test]
fn buy_errors() {
    let mut state = MarketState::new();
    market_with_liquidity(&mut state, ALICE, 1_000);
    assert_eq!(
        state.buy_shares(BOB, 20, 9, true, 100, 1_000),
        Err(MarketError::NotFound(Entity::Market))
    );
    // cost 125 exceeds the caller's bound of 124
    assert_eq!(state.buy_shares(BOB, 20, 0, true, 100, 124), Err(MarketError::CostExceedsLimit));
    // draining the pool entirely
    assert_eq!(
        state.buy_shares(BOB, 20, 0, true, 500, u128::MAX),
        Err(MarketError::InsufficientLiquidity)
    );
    // past the end time
    assert_eq!(
        state.buy_shares(BOB, 1_001, 0, true, 100, 1_000),
        Err(MarketError::MarketEnded)
    );
    // after resolution
    state.resolve_market(ALICE, 0, true).unwrap();
    assert_eq!(state.buy_shares(BOB, 20, 0, true, 100, 1_000), Err(MarketError::AlreadyResolved));
    // failed buys changed nothing
    assert_eq!(state.market(0).unwrap().yes_pool, 500);
    assert_eq!(state.total_volume(), 0);
}

#[test]
fn buy_at_exact_cost_bound_succeeds() {
    let mut state = MarketState::new();
    market_with_liquidity(&mut state, ALICE, 1_000);
    // the bound is inclusive: a cost of exactly 125 passes max_cost = 125
    assert_eq!(state.buy_shares(BOB, 20, 0, true, 100, 125), Ok(125));
}

#[test]
fn sell_returns_at_most_cost() {
    let mut state = MarketState::new();
    market_with_liquidity(&mut state, ALICE, 1_000);
    let cost = state.buy_shares(BOB, 20, 0, true, 100, 1_000).unwrap();
    let proceeds = state.sell_shares(BOB, 0, true, 100, 0).unwrap();
    assert!(proceeds <= cost);
    assert_eq!(proceeds, 125);
    // pools are restored exactly in this remainder-free case
    let m = state.market(0).unwrap();
    assert_eq!(m.yes_pool, 500);
    assert_eq!(m.no_pool, 500);
    assert_eq!(m.total_yes_shares, 500);
    // both legs counted into volume
    assert_eq!(m.volume, 250);
}

#[test]
fn sell_requires_held_shares() {
    let mut state = MarketState::new();
    market_with_liquidity(&mut state, ALICE, 1_000);
    assert_eq!(
        state.sell_shares(BOB, 0, true, 1, 0),
        Err(MarketError::InsufficientLiquidity)
    );
    state.buy_shares(BOB, 20, 0, true, 100, 1_000).unwrap();
    assert_eq!(
        state.sell_shares(BOB, 0, true, 101, 0),
        Err(MarketError::InsufficientLiquidity)
    );
    // the NO side is empty even though YES shares are held
    assert_eq!(
        state.sell_shares(BOB, 0, false, 1, 0),
        Err(MarketError::InsufficientLiquidity)
    );
}

#[test]
fn sell_allowed_after_end_time_but_not_after_resolution() {
    let mut state = MarketState::new();
    market_with_liquidity(&mut state, ALICE, 1_000);
    state.buy_shares(BOB, 20, 0, true, 100, 1_000).unwrap();
    // past end_time: selling must still work
    assert!(state.sell_shares(BOB, 0, true, 50, 0).is_ok());
    state.resolve_market(ALICE, 0, true).unwrap();
    assert_eq!(state.sell_shares(BOB, 0, true, 50, 0), Err(MarketError::AlreadyResolved));
}

#[test]
fn sell_proceeds_below_minimum() {
    let mut state = MarketState::new();
    market_with_liquidity(&mut state, ALICE, 1_000);
    state.buy_shares(BOB, 20, 0, true, 100, 1_000).unwrap();
    assert_eq!(
        state.sell_shares(BOB, 0, true, 100, 126),
        Err(MarketError::ProceedsBelowMinimum)
    );
}

#[test]
fn share_totals_track_position_sums() {
    let mut state = MarketState::new();
    market_with_liquidity(&mut state, ALICE, 1_000);
    state.buy_shares(BOB, 20, 0, true, 100, 1_000).unwrap();
    state.buy_shares(ALICE, 20, 0, true, 60, 1_000).unwrap();
    state.sell_shares(BOB, 0, true, 30, 0).unwrap();
    // the totals stay exactly the creation seed (500) apart from the sum of
    // all positions: 100 + 60 - 30 = 130 held, total 630.
    assert_eq!(state.market(0).unwrap().total_yes_shares, 500 + 130);
}

#[test]
fn resolve_requires_creator_and_happens_once() {
    let mut state = MarketState::new();
    market_with_liquidity(&mut state, ALICE, 1_000);
    assert_eq!(state.resolve_market(BOB, 0, true), Err(MarketError::NotAuthorized));
    assert_eq!(state.resolve_market(ALICE, 9, true), Err(MarketError::NotFound(Entity::Market)));
    assert_eq!(state.resolve_market(ALICE, 0, true), Ok(()));
    let m = state.market(0).unwrap();
    assert!(m.resolved);
    assert_eq!(m.outcome, Some(true));
    assert_eq!(state.resolve_market(ALICE, 0, false), Err(MarketError::AlreadyResolved));
}

#[test]
fn claim_scenario_exact_payout() {
    let mut state = MarketState::new();
    market_with_liquidity(&mut state, ALICE, 1_000);
    state.buy_shares(BOB, 20, 0, true, 100, 1_000).unwrap();
    state.resolve_market(ALICE, 0, true).unwrap();
    // 100 winning shares out of 600, over the whole pool 400 + 625 = 1025:
    // payout = 100 * 1025 / 600 = 170 (floored).
    assert_eq!(state.claim_winnings(BOB, 0), Ok(170));
}

#[test]
fn claim_twice_fails_already_claimed() {
    let mut state = MarketState::new();
    market_with_liquidity(&mut state, ALICE, 1_000);
    state.buy_shares(BOB, 20, 0, true, 100, 1_000).unwrap();
    state.resolve_market(ALICE, 0, true).unwrap();
    assert!(state.claim_winnings(BOB, 0).is_ok());
    assert_eq!(state.claim_winnings(BOB, 0), Err(MarketError::AlreadyClaimed));
}

#[test]
fn claim_errors() {
    let mut state = MarketState::new();
    market_with_liquidity(&mut state, ALICE, 1_000);
    state.buy_shares(BOB, 20, 0, true, 100, 1_000).unwrap();
    // not resolved yet
    assert_eq!(state.claim_winnings(BOB, 0), Err(MarketError::OutcomeUnset));
    state.resolve_market(ALICE, 0, false).unwrap();
    // BOB holds only YES shares and NO won
    assert_eq!(state.claim_winnings(BOB, 0), Err(MarketError::NoWinningShares));
    // ALICE never traded
    assert_eq!(state.claim_winnings(ALICE, 0), Err(MarketError::NotFound(Entity::Position)));
    assert_eq!(state.claim_winnings(BOB, 9), Err(MarketError::NotFound(Entity::Market)));
}

#[test]
fn claim_pays_the_no_side_when_no_wins() {
    let mut state = MarketState::new();
    market_with_liquidity(&mut state, ALICE, 1_000);
    state.buy_shares(BOB, 20, 0, false, 100, 1_000).unwrap();
    state.resolve_market(ALICE, 0, false).unwrap();
    // mirror of the YES scenario: pools 625/400, 100 of 600 NO shares win
    assert_eq!(state.claim_winnings(BOB, 0), Ok(170));
}

#[test]
fn query_surface_filters_markets() {
    let mut state = MarketState::new();
    market_with_liquidity(&mut state, ALICE, 1_000);
    market_with_liquidity(&mut state, ALICE, 2_000);
    market_with_liquidity(&mut state, BOB, 3_000);
    state.resolve_market(ALICE, 1, true).unwrap();
    assert_eq!(state.market_count(), 3);
    assert_eq!(state.active_markets(), vec![0, 2]);
    assert_eq!(state.resolved_markets(), vec![1]);
    assert_eq!(state.markets().len(), 3);
    assert!(state.market(7).is_none());
}

#[test]
fn dispatch_requires_authentication() {
    let mut state = MarketState::new();
    let op = Operation::ClaimWinnings { market_id: 0 };
    assert_eq!(state.execute_operation(None, 0, op), Err(MarketError::Unauthenticated));
}

#[test]
fn dispatch_routes_operations() {
    let mut state = MarketState::new();
    let create = Operation::CreateMarket {
        question: String::from("will the launch slip?"),
        categories: vec![],
        end_time: 1_000,
        initial_liquidity: 1_000,
    };
    assert_eq!(
        state.execute_operation(Some(ALICE), 5, create),
        Ok(OperationResponse::MarketCreated(0))
    );
    let buy = Operation::BuyShares { market_id: 0, is_yes: true, shares: 100, max_cost: 1_000 };
    assert_eq!(
        state.execute_operation(Some(BOB), 6, buy),
        Ok(OperationResponse::SharesPurchased { cost: 125 })
    );
    let sell = Operation::SellShares { market_id: 0, is_yes: true, shares: 50, min_proceeds: 0 };
    match state.execute_operation(Some(BOB), 7, sell) {
        Ok(OperationResponse::SharesSold { proceeds }) => assert!(proceeds > 0),
        other => panic!("unexpected: {other:?}"),
    }
    let resolve = Operation::ResolveMarket { market_id: 0, outcome: true };
    assert_eq!(
        state.execute_operation(Some(ALICE), 8, resolve),
        Ok(OperationResponse::MarketResolved)
    );
    let claim = Operation::ClaimWinnings { market_id: 0 };
    match state.execute_operation(Some(BOB), 9, claim) {
        Ok(OperationResponse::WinningsClaimed(p)) => assert!(p > 0),
        other => panic!("unexpected: {other:?}"),
    }
}
