//! The application's operation interface: a closed sum type of requests, one
//! response per request kind, and a single dispatcher that authenticates the
//! caller and routes to the ledger.

use vstd::prelude::*;
use crate::combo::LegRequest;
use crate::errors::MarketError;
use crate::state::{
    buy_post, cancel_post, claim_post, create_combo_post, create_market_post, resolve_post,
    sell_post, MarketState,
};

verus! {

/// Marker type naming this application's interface: operations of type
/// `Operation` answered by `OperationResponse`. Host bindings attach their
/// transport machinery to it.
pub struct MarketAbi;

/// Every request the market application accepts.
pub enum Operation {
    /// Open a market; the liquidity is split evenly between the pools.
    CreateMarket {
        /// The question being predicted.
        question: String,
        /// Category tags, ordered, duplicates allowed.
        categories: Vec<String>,
        /// Trading deadline for buys.
        end_time: u64,
        /// Liquidity backing the market, half per side.
        initial_liquidity: u128,
    },
    /// Buy shares of one side at the pool's constant-product price.
    BuyShares {
        /// The market to trade against.
        market_id: u64,
        /// Which side to buy.
        is_yes: bool,
        /// How many shares to buy.
        shares: u128,
        /// Slippage bound: fail rather than pay more.
        max_cost: u128,
    },
    /// Sell held shares back to the pool.
    SellShares {
        /// The market to trade against.
        market_id: u64,
        /// Which side to sell.
        is_yes: bool,
        /// How many shares to sell.
        shares: u128,
        /// Slippage bound: fail rather than receive less.
        min_proceeds: u128,
    },
    /// Record a market's final outcome (creator only) and cascade it over
    /// every open combo.
    ResolveMarket {
        /// The market to settle.
        market_id: u64,
        /// The outcome; `true` means YES.
        outcome: bool,
    },
    /// Collect the caller's winnings from a resolved market.
    ClaimWinnings {
        /// The market to claim from.
        market_id: u64,
    },
    /// Stake a combo across several markets at frozen odds.
    CreateCombo {
        /// Human-readable label.
        label: String,
        /// The legs: which market, which side. Between 2 and 10.
        legs: Vec<LegRequest>,
        /// The amount staked.
        stake: u128,
    },
    /// Withdraw an active combo before any of its markets settles.
    CancelCombo {
        /// The combo to cancel.
        combo_id: u64,
    },
}

/// The success value of each operation.
#[derive(Clone, Copy, Debug, PartialEq, Eq, Structural)]
pub enum OperationResponse {
    /// The id of the market just created.
    MarketCreated(u64),
    /// What the buy cost.
    SharesPurchased {
        /// The value paid into the opposing pool.
        cost: u128,
    },
    /// What the sell returned.
    SharesSold {
        /// The value drawn from the opposing pool.
        proceeds: u128,
    },
    /// The market is settled.
    MarketResolved,
    /// The payout of a successful claim.
    WinningsClaimed(u128),
    /// The id of the combo just created.
    ComboCreated(u64),
    /// The combo is cancelled.
    ComboCancelled,
}

impl MarketState {
    /// Dispatches one authenticated request. An absent identity is refused as
    /// `Unauthenticated` before anything is read; each arm then carries the
    /// called operation's entire contract (`create_market_post`, `buy_post`,
    /// ...), with the response payload mapped back to that operation's own
    /// result — so a successful response here *is* the operation's success,
    /// state transition included. The catch-all arms of the payload mappings
    /// are ruled out by the response-shape clause above them.
    pub fn execute_operation(
        &mut self,
        caller: Option<u64>,
        timestamp: u64,
        operation: Operation,
    ) -> (r: Result<OperationResponse, MarketError>)
        requires
            old(self).wf(),
        ensures
            final(self).wf(),
            caller is None <==> r == Err::<OperationResponse, MarketError>(
                MarketError::Unauthenticated,
            ),
            caller is None ==> *final(self) == *old(self),
            r is Ok ==> (match operation {
                Operation::CreateMarket { .. } => r.unwrap() is MarketCreated,
                Operation::BuyShares { .. } => r.unwrap() is SharesPurchased,
                Operation::SellShares { .. } => r.unwrap() is SharesSold,
                Operation::ResolveMarket { .. } => r.unwrap() is MarketResolved,
                Operation::ClaimWinnings { .. } => r.unwrap() is WinningsClaimed,
                Operation::CreateCombo { .. } => r.unwrap() is ComboCreated,
                Operation::CancelCombo { .. } => r.unwrap() is ComboCancelled,
            }),
            r is Err ==> *final(self) == *old(self),
            caller matches Some(signer) ==> (match operation {
                Operation::CreateMarket { question, categories, end_time, initial_liquidity } => {
                    create_market_post(
                        *old(self),
                        *final(self),
                        signer,
                        timestamp,
                        question,
                        categories,
                        end_time,
                        initial_liquidity,
                        match r {
                            Ok(OperationResponse::MarketCreated(id)) => Ok(id),
                            Err(e) => Err(e),
                            _ => Err(MarketError::Unauthenticated),
                        },
                    )
                },
                Operation::BuyShares { market_id, is_yes, shares, max_cost } => {
                    buy_post(
                        *old(self),
                        *final(self),
                        signer,
                        timestamp,
                        market_id,
                        is_yes,
                        shares,
                        max_cost,
                        match r {
                            Ok(OperationResponse::SharesPurchased { cost }) => Ok(cost),
                            Err(e) => Err(e),
                            _ => Err(MarketError::Unauthenticated),
                        },
                    )
                },
                Operation::SellShares { market_id, is_yes, shares, min_proceeds } => {
                    sell_post(
                        *old(self),
                        *final(self),
                        signer,
                        market_id,
                        is_yes,
                        shares,
                        min_proceeds,
                        match r {
                            Ok(OperationResponse::SharesSold { proceeds }) => Ok(proceeds),
                            Err(e) => Err(e),
                            _ => Err(MarketError::Unauthenticated),
                        },
                    )
                },
                Operation::ResolveMarket { market_id, outcome } => {
                    resolve_post(
                        *old(self),
                        *final(self),
                        signer,
                        market_id,
                        outcome,
                        match r {
                            Ok(OperationResponse::MarketResolved) => Ok(()),
                            Err(e) => Err(e),
                            _ => Err(MarketError::Unauthenticated),
                        },
                    )
                },
                Operation::ClaimWinnings { market_id } => {
                    claim_post(
                        *old(self),
                        *final(self),
                        signer,
                        market_id,
                        match r {
                            Ok(OperationResponse::WinningsClaimed(payout)) => Ok(payout),
                            Err(e) => Err(e),
                            _ => Err(MarketError::Unauthenticated),
                        },
                    )
                },
                Operation::CreateCombo { label, legs, stake } => {
                    create_combo_post(
                        *old(self),
                        *final(self),
                        signer,
                        label,
                        legs,
                        stake,
                        match r {
                            Ok(OperationResponse::ComboCreated(id)) => Ok(id),
                            Err(e) => Err(e),
                            _ => Err(MarketError::Unauthenticated),
                        },
                    )
                },
                Operation::CancelCombo { combo_id } => {
                    cancel_post(
                        *old(self),
                        *final(self),
                        signer,
                        combo_id,
                        match r {
                            Ok(OperationResponse::ComboCancelled) => Ok(()),
                            Err(e) => Err(e),
                            _ => Err(MarketError::Unauthenticated),
                        },
                    )
                },
            }),
    {
        let signer = match caller {
            Some(s) => s,
            None => {
                return Err(MarketError::Unauthenticated);
            },
        };
        match operation {
            Operation::CreateMarket { question, categories, end_time, initial_liquidity } => {
                match self.create_market(
                    signer,
                    timestamp,
                    question,
                    categories,
                    end_time,
                    initial_liquidity,
                ) {
                    Ok(id) => Ok(OperationResponse::MarketCreated(id)),
                    Err(e) => Err(e),
                }
            },
            Operation::BuyShares { market_id, is_yes, shares, max_cost } => {
                match self.buy_shares(signer, timestamp, market_id, is_yes, shares, max_cost) {
                    Ok(cost) => Ok(OperationResponse::SharesPurchased { cost }),
                    Err(e) => Err(e),
                }
            },
            Operation::SellShares { market_id, is_yes, shares, min_proceeds } => {
                match self.sell_shares(signer, market_id, is_yes, shares, min_proceeds) {
                    Ok(proceeds) => Ok(OperationResponse::SharesSold { proceeds }),
                    Err(e) => Err(e),
                }
            },
            Operation::ResolveMarket { market_id, outcome } => {
                match self.resolve_market(signer, market_id, outcome) {
                    Ok(()) => Ok(OperationResponse::MarketResolved),
                    Err(e) => Err(e),
                }
            },
            Operation::ClaimWinnings { market_id } => {
                match self.claim_winnings(signer, market_id) {
                    Ok(payout) => Ok(OperationResponse::WinningsClaimed(payout)),
                    Err(e) => Err(e),
                }
            },
            Operation::CreateCombo { label, legs, stake } => {
                proof {
                    crate::combo::lemma_combo_legs_check_errors(
                        self.markets@,
                        legs@,
                        legs@.len() as int,
                    );
                }
                match self.create_combo(signer, label, legs, stake) {
                    Ok(id) => Ok(OperationResponse::ComboCreated(id)),
                    Err(e) => Err(e),
                }
            },
            Operation::CancelCombo { combo_id } => {
                match self.cancel_combo(signer, combo_id) {
                    Ok(()) => Ok(OperationResponse::ComboCancelled),
                    Err(e) => Err(e),
                }
            },
        }
    }
}

} // verus!
