use chronos_market::combo::{ComboStatus, LegRequest};
use chronos_market::errors::{Entity, MarketError};
use chronos_market::interface::{Operation, OperationResponse};
use chronos_market::state::MarketState;

const ALICE: u64 = 1;
const BOB: u64 = 2;

const HALF_SCALE: u128 = 500_000_000_000_000_000;

fn fifty_fifty_market(state: &mut MarketState, creator: u64) -> u64 {
    state
        .create_market(
            creator,
            10,
            String::from("coin flip"),
            vec![],
            1_000,
            1_000,
        )
        .unwrap()
}

fn two_leg_combo(state: &mut MarketState, owner: u64, stake: u128) -> u64 {
    let legs = vec![
        LegRequest { market_id: 0, prediction: true },
        LegRequest { market_id: 1, prediction: true },
    ];
    state.create_combo(owner, String::from("double"), legs, stake).unwrap()
}

#[test]
fn combo_scenario_odds_and_payout() {
    let mut state = MarketState::new();
    fifty_fifty_market(&mut state, ALICE);
    fifty_fifty_market(&mut state, ALICE);
    let id = two_leg_combo(&mut state, BOB, 100);
    assert_eq!(id, 0);
    let c = &state.combos[0];
    assert_eq!(c.owner, BOB);
    assert_eq!(c.stake, 100);
    assert_eq!(c.status, ComboStatus::Active);
    assert_eq!(c.legs.len(), 2);
    // each 50/50 leg snapshots an implied probability of one half
    assert_eq!(c.legs[0].odds, HALF_SCALE);
    assert_eq!(c.legs[1].odds, HALF_SCALE);
    assert!(!c.legs[0].resolved);
    assert_eq!(c.legs[0].won, None);
    // combined odds double per leg: stake 100 pays 400
    assert_eq!(c.potential_payout, 400);
}

#[test]
fn combo_leg_count_bounds() {
    let mut state = MarketState::new();
    fifty_fifty_market(&mut state, ALICE);
    let one = vec![LegRequest { market_id: 0, prediction: true }];
    assert_eq!(
        state.create_combo(BOB, String::from("solo"), one, 100),
        Err(MarketError::InvalidLegCount)
    );
    let eleven = vec![LegRequest { market_id: 0, prediction: true }; 11];
    assert_eq!(
        state.create_combo(BOB, String::from("eleven"), eleven, 100),
        Err(MarketError::InvalidLegCount)
    );
}

#[test]
fn combo_leg_validation_errors() {
    let mut state = MarketState::new();
    fifty_fifty_market(&mut state, ALICE);
    let missing = vec![
        LegRequest { market_id: 0, prediction: true },
        LegRequest { market_id: 7, prediction: false },
    ];
    assert_eq!(
        state.create_combo(BOB, String::from("ghost leg"), missing, 100),
        Err(MarketError::NotFound(Entity::Market))
    );
    // a market created with no liquidity has two empty pools
    let empty = state
        .create_market(ALICE, 10, String::from("empty"), vec![], 1_000, 0)
        .unwrap();
    let zero = vec![
        LegRequest { market_id: 0, prediction: true },
        LegRequest { market_id: empty, prediction: true },
    ];
    assert_eq!(
        state.create_combo(BOB, String::from("dry leg"), zero, 100),
        Err(MarketError::ZeroLiquidity)
    );
    state.resolve_market(ALICE, 0, true).unwrap();
    let settled = vec![
        LegRequest { market_id: 0, prediction: true },
        LegRequest { market_id: empty, prediction: true },
    ];
    assert_eq!(
        state.create_combo(BOB, String::from("late leg"), settled, 100),
        Err(MarketError::AlreadyResolved)
    );
}

#[test]
fn losing_leg_settles_combo_immediately() {
    let mut state = MarketState::new();
    fifty_fifty_market(&mut state, ALICE);
    fifty_fifty_market(&mut state, ALICE);
    two_leg_combo(&mut state, BOB, 100);
    // leg 1 predicted YES; the market resolves NO
    state.resolve_market(ALICE, 0, false).unwrap();
    let c = &state.combos[0];
    assert_eq!(c.status, ComboStatus::Lost);
    assert!(c.legs[0].resolved);
    assert_eq!(c.legs[0].won, Some(false));
    assert!(!c.legs[1].resolved);
    // leg 2's later outcome cannot revive it: a lost combo is settled and the
    // cascade no longer touches it
    state.resolve_market(ALICE, 1, true).unwrap();
    assert_eq!(state.combos[0].status, ComboStatus::Lost);
    assert!(!state.combos[0].legs[1].resolved);
}

#[test]
fn winning_every_leg_wins_the_combo() {
    let mut state = MarketState::new();
    fifty_fifty_market(&mut state, ALICE);
    fifty_fifty_market(&mut state, ALICE);
    two_leg_combo(&mut state, BOB, 100);
    state.resolve_market(ALICE, 0, true).unwrap();
    assert_eq!(state.combos[0].status, ComboStatus::PartiallyResolved);
    state.resolve_market(ALICE, 1, true).unwrap();
    let c = &state.combos[0];
    assert_eq!(c.status, ComboStatus::Won);
    assert_eq!(c.legs[0].won, Some(true));
    assert_eq!(c.legs[1].won, Some(true));
}

#[test]
fn cancel_only_while_untouched() {
    let mut state = MarketState::new();
    fifty_fifty_market(&mut state, ALICE);
    fifty_fifty_market(&mut state, ALICE);
    two_leg_combo(&mut state, BOB, 100);
    assert_eq!(state.cancel_combo(ALICE, 0), Err(MarketError::NotAuthorized));
    assert_eq!(state.cancel_combo(BOB, 9), Err(MarketError::NotFound(Entity::Combo)));
    assert_eq!(state.cancel_combo(BOB, 0), Ok(()));
    assert_eq!(state.combos[0].status, ComboStatus::Cancelled);
    // a cancelled combo cannot be cancelled again
    assert_eq!(state.cancel_combo(BOB, 0), Err(MarketError::NotCancellable));
    // and the cascade leaves it alone
    state.resolve_market(ALICE, 0, false).unwrap();
    assert_eq!(state.combos[0].status, ComboStatus::Cancelled);
    assert!(!state.combos[0].legs[0].resolved);
}

#[test]
fn cancel_blocked_by_resolved_leg() {
    let mut state = MarketState::new();
    fifty_fifty_market(&mut state, ALICE);
    fifty_fifty_market(&mut state, ALICE);
    two_leg_combo(&mut state, BOB, 100);
    state.resolve_market(ALICE, 1, true).unwrap();
    assert_eq!(
        state.cancel_combo(BOB, 0),
        Err(MarketError::PartialResolutionPreventsCancel)
    );
}

#[test]
fn combo_operations_via_dispatcher() {
    let mut state = MarketState::new();
    fifty_fifty_market(&mut state, ALICE);
    fifty_fifty_market(&mut state, ALICE);
    let create = Operation::CreateCombo {
        label: String::from("double"),
        legs: vec![
            LegRequest { market_id: 0, prediction: true },
            LegRequest { market_id: 1, prediction: false },
        ],
        stake: 50,
    };
    assert_eq!(
        state.execute_operation(Some(BOB), 20, create),
        Ok(OperationResponse::ComboCreated(0))
    );
    assert_eq!(state.combos[0].potential_payout, 200);
    let cancel = Operation::CancelCombo { combo_id: 0 };
    assert_eq!(
        state.execute_operation(Some(BOB), 21, cancel),
        Ok(OperationResponse::ComboCancelled)
    );
    assert_eq!(state.combos[0].status, ComboStatus::Cancelled);
}

#[test]
fn combo_odds_follow_pool_ratio() {
    let mut state = MarketState::new();
    // an unbalanced market: 800 YES pool, 200 NO pool after trading
    fifty_fifty_market(&mut state, ALICE);
    fifty_fifty_market(&mut state, ALICE);
    state.buy_shares(BOB, 20, 0, false, 250, u128::MAX).unwrap();
    let m = state.market(0).unwrap();
    let (yes, no, total) = (m.yes_pool, m.no_pool, m.yes_pool + m.no_pool);
    let legs = vec![
        LegRequest { market_id: 0, prediction: true },
        LegRequest { market_id: 1, prediction: false },
    ];
    let id = state.create_combo(BOB, String::from("tilted"), legs, 1_000).unwrap();
    let c = &state.combos[id as usize];
    // predicting YES prices at the NO pool's share of the total, and the
    // other way round
    assert_eq!(c.legs[0].odds, no * chronos_market::fixed_point::SCALE / total);
    assert_eq!(c.legs[1].odds, HALF_SCALE);
    assert_eq!(yes + no, total);
}
