//! The stored entities of the market ledger: markets, per-owner positions,
//! and trade records. All monetary quantities are non-negative fixed-point
//! integers at attos (10^-18) granularity, held in `u128`.

use vstd::prelude::*;

verus! {

/// A binary-outcome prediction market backed by a two-sided constant-product
/// pool. Pools and share totals are seeded at half of the creator-supplied
/// liquidity each and move with every trade; once `resolved` the market is
/// frozen.
pub struct Market {
    /// Dense sequential id, assigned from the ledger's counter.
    pub id: u64,
    /// Identity of the creator; only the creator may resolve.
    pub creator: u64,
    /// The question being predicted.
    pub question: String,
    /// Category tags, ordered, duplicates allowed.
    pub categories: Vec<String>,
    /// Trading deadline: buys fail once the clock passes this.
    pub end_time: u64,
    /// Timestamp at creation.
    pub created_at: u64,
    /// Liquidity backing the YES side.
    pub yes_pool: u128,
    /// Liquidity backing the NO side.
    pub no_pool: u128,
    /// Cumulative YES shares outstanding (seed plus all net buys).
    pub total_yes_shares: u128,
    /// Cumulative NO shares outstanding.
    pub total_no_shares: u128,
    /// Whether the outcome is final.
    pub resolved: bool,
    /// The recorded outcome; set exactly when `resolved`. `true` means YES.
    pub outcome: Option<bool>,
    /// Cumulative traded value through this market.
    pub volume: u128,
    /// Ghost record of the seed each share total started at (half the
    /// creation liquidity): the books-balance invariant says each total is
    /// exactly this seed plus the shares its positions hold.
    pub seed_shares: Ghost<u128>,
}

impl Market {
    /// The market's internal invariant: an outcome is recorded exactly when
    /// the market is resolved.
    pub open spec fn wf(&self) -> bool {
        self.resolved <==> self.outcome is Some
    }
}

/// An owner's share balances in one market, created lazily on first trade.
/// `claimed` flips exactly once, on a successful claim, and never back.
#[derive(Clone, Copy, Debug, PartialEq, Eq, Structural)]
pub struct Position {
    /// The market these balances belong to.
    pub market_id: u64,
    /// The identity holding the balances.
    pub owner: u64,
    /// Shares of the YES side held.
    pub yes_shares: u128,
    /// Shares of the NO side held.
    pub no_shares: u128,
    /// Whether winnings were already paid out for this position.
    pub claimed: bool,
}

/// A record of one executed trade.
#[derive(Clone, Copy, Debug, PartialEq, Eq, Structural)]
pub struct Trade {
    /// The market traded against.
    pub market_id: u64,
    /// The identity that traded.
    pub trader: u64,
    /// Which side was traded.
    pub is_yes: bool,
    /// How many shares changed hands.
    pub shares: u128,
    /// The value that moved: cost of a buy, proceeds of a sell.
    pub cost: u128,
    /// When the trade executed.
    pub timestamp: u64,
}

} // verus!
