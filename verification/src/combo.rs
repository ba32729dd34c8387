//! Multi-leg combo bets: a single stake spanning several markets, paying only
//! if every leg's prediction matches its market's outcome. Each leg freezes
//! the implied probability of its predicted side at creation time; the
//! combined payout multiplier is the product of the legs' reciprocal
//! probabilities, accumulated by iterated fixed-point division.

use vstd::prelude::*;
use crate::errors::{Entity, MarketError};
use crate::fixed_point::{
    safe_mul_div, mul_div_quot, mul_div_exact, mul_div_fits, mul_div_ladder, SCALE,
};
use crate::market::Market;

verus! {

/// Where a combo stands in its lifecycle.
#[derive(Clone, Copy, Debug, PartialEq, Eq, Structural)]
pub enum ComboStatus {
    /// No leg resolved yet.
    Active,
    /// Some legs resolved, none lost, some still open.
    PartiallyResolved,
    /// Every leg resolved and every prediction matched.
    Won,
    /// Some resolved leg's prediction missed; terminal the moment it does.
    Lost,
    /// Withdrawn by its owner before any leg resolved.
    Cancelled,
}

/// A leg as requested at combo creation: which market, and which side.
#[derive(Clone, Copy, Debug, PartialEq, Eq, Structural)]
pub struct LegRequest {
    /// The market this leg bets on.
    pub market_id: u64,
    /// The predicted outcome; `true` means YES.
    pub prediction: bool,
}

/// One leg of a stored combo, with its odds snapshot and resolution state.
#[derive(Clone, Copy, Debug, PartialEq, Eq, Structural)]
pub struct ComboLeg {
    /// The market this leg bets on.
    pub market_id: u64,
    /// The predicted outcome; `true` means YES.
    pub prediction: bool,
    /// Implied probability of the predicted side at creation, scaled so that
    /// `SCALE` stands for certainty.
    pub odds: u128,
    /// Whether the referenced market has resolved since creation.
    pub resolved: bool,
    /// Once resolved: whether the prediction matched the outcome.
    pub won: Option<bool>,
}

/// A multi-leg bet with frozen odds and a status driven by the resolution
/// cascade.
pub struct Combo {
    /// Dense sequential id, assigned from the ledger's counter.
    pub id: u64,
    /// The identity that staked it.
    pub owner: u64,
    /// Human-readable label.
    pub label: String,
    /// The legs, in creation order; between 2 and 10 of them.
    pub legs: Vec<ComboLeg>,
    /// The amount staked.
    pub stake: u128,
    /// `stake * combined_odds / SCALE`, snapshot at creation.
    pub potential_payout: u128,
    /// Lifecycle state.
    pub status: ComboStatus,
}

/// A leg whose market resolved against its prediction.
pub open spec fn leg_lost(l: ComboLeg) -> bool {
    l.resolved && l.won == Some(false)
}

/// Whether any leg has already lost.
pub open spec fn any_lost(legs: Seq<ComboLeg>) -> bool {
    exists|j: int| 0 <= j < legs.len() && leg_lost(#[trigger] legs[j])
}

/// Whether every leg has resolved.
pub open spec fn all_resolved(legs: Seq<ComboLeg>) -> bool {
    forall|j: int| 0 <= j < legs.len() ==> (#[trigger] legs[j]).resolved
}

/// Whether any leg has resolved.
pub open spec fn any_resolved(legs: Seq<ComboLeg>) -> bool {
    exists|j: int| 0 <= j < legs.len() && (#[trigger] legs[j]).resolved
}

/// The status a combo's legs dictate: a lost leg is decisive, then full
/// resolution wins, then any resolution is partial, else the combo is open.
pub open spec fn combo_status_of(legs: Seq<ComboLeg>) -> ComboStatus {
    if any_lost(legs) {
        ComboStatus::Lost
    } else if all_resolved(legs) {
        ComboStatus::Won
    } else if any_resolved(legs) {
        ComboStatus::PartiallyResolved
    } else {
        ComboStatus::Active
    }
}

/// How one leg reacts to a market resolving: a matching, still-open leg
/// records the outcome; every other leg is untouched.
pub open spec fn leg_after_resolution(leg: ComboLeg, market_id: u64, outcome: bool) -> ComboLeg {
    if leg.market_id == market_id && !leg.resolved {
        ComboLeg { resolved: true, won: Some(leg.prediction == outcome), ..leg }
    } else {
        leg
    }
}

/// The implied probability of the predicted side, as the opposing pool's
/// share of the total pool, scaled by `SCALE`.
pub open spec fn leg_odds_quot(yes_pool: u128, no_pool: u128, prediction: bool) -> int {
    if prediction {
        mul_div_quot(no_pool as int, SCALE as int, yes_pool + no_pool)
    } else {
        mul_div_quot(yes_pool as int, SCALE as int, yes_pool + no_pool)
    }
}

/// The pool backing the side opposite to the prediction.
pub open spec fn opposing_pool(yes_pool: u128, no_pool: u128, prediction: bool) -> u128 {
    if prediction {
        no_pool
    } else {
        yes_pool
    }
}

/// The combined payout multiplier over the first `n` legs: starting from
/// `SCALE`, each leg divides by its implied probability.
pub open spec fn combined_odds_rec(markets: Seq<Market>, legs: Seq<LegRequest>, n: int) -> int
    decreases n,
{
    if n <= 0 {
        SCALE as int
    } else {
        let leg = legs[n - 1];
        let m = markets[leg.market_id as int];
        mul_div_quot(
            combined_odds_rec(markets, legs, n - 1),
            SCALE as int,
            leg_odds_quot(m.yes_pool, m.no_pool, leg.prediction),
        )
    }
}

/// The inputs on which the odds accumulation stays on exact arithmetic for
/// the first `n` legs: total pools in range, every leg probability positive,
/// and every division within `safe_mul_div`'s exact ladder.
pub open spec fn combo_odds_exact(markets: Seq<Market>, legs: Seq<LegRequest>, n: int) -> bool
    decreases n,
{
    if n <= 0 {
        true
    } else {
        let leg = legs[n - 1];
        let m = markets[leg.market_id as int];
        let total = m.yes_pool + m.no_pool;
        let odds = leg_odds_quot(m.yes_pool, m.no_pool, leg.prediction);
        let prev = combined_odds_rec(markets, legs, n - 1);
        &&& combo_odds_exact(markets, legs, n - 1)
        &&& 0 < total <= u128::MAX
        &&& mul_div_exact(
            opposing_pool(m.yes_pool, m.no_pool, leg.prediction),
            SCALE,
            total as u128,
        )
        &&& 0 < odds
        &&& 0 <= prev <= u128::MAX
        &&& mul_div_exact(prev as u128, SCALE, odds as u128)
    }
}

/// The validation verdict over the first `n` requested legs, in leg order:
/// the referenced market must exist, be unresolved, and hold some liquidity.
pub open spec fn combo_legs_check(markets: Seq<Market>, legs: Seq<LegRequest>, n: int) -> Option<
    MarketError,
>
    decreases n,
{
    if n <= 0 {
        None
    } else {
        let prev = combo_legs_check(markets, legs, n - 1);
        if prev is Some {
            prev
        } else {
            let leg = legs[n - 1];
            if leg.market_id >= markets.len() {
                Some(MarketError::NotFound(Entity::Market))
            } else if markets[leg.market_id as int].resolved {
                Some(MarketError::AlreadyResolved)
            } else if markets[leg.market_id as int].yes_pool == 0 && markets[leg.market_id as int].no_pool
                == 0 {
                Some(MarketError::ZeroLiquidity)
            } else {
                None
            }
        }
    }
}

/// The full validation verdict for a combo request: leg count first, then
/// each leg in order.
pub open spec fn combo_check(markets: Seq<Market>, legs: Seq<LegRequest>) -> Option<MarketError> {
    if legs.len() < 2 || legs.len() > 10 {
        Some(MarketError::InvalidLegCount)
    } else {
        combo_legs_check(markets, legs, legs.len() as int)
    }
}

impl Combo {
    /// The combo's internal invariant, relative to how many markets exist:
    /// leg count in range, legs reference stored markets, a cancelled combo
    /// never saw a leg resolve, and any other status is the one its legs
    /// dictate.
    pub open spec fn wf(&self, n_markets: int) -> bool {
        &&& 2 <= self.legs@.len() <= 10
        &&& forall|j: int|
            0 <= j < self.legs@.len() ==> (#[trigger] self.legs@[j]).market_id < n_markets
        &&& (self.status is Cancelled ==> !any_resolved(self.legs@))
        &&& (!(self.status is Cancelled) ==> self.status == combo_status_of(self.legs@))
    }
}

/// How one combo reacts to a market resolving: an open combo (active or
/// partially resolved) has every matching open leg record the outcome and its
/// status recomputed from the legs; a settled or cancelled combo is untouched.
pub open spec fn combo_cascaded(c: Combo, c2: Combo, market_id: u64, outcome: bool) -> bool {
    &&& c2.id == c.id
    &&& c2.owner == c.owner
    &&& c2.label == c.label
    &&& c2.stake == c.stake
    &&& c2.potential_payout == c.potential_payout
    &&& if c.status is Active || c.status is PartiallyResolved {
        &&& c2.legs@.len() == c.legs@.len()
        &&& (forall|j: int|
            0 <= j < c.legs@.len() ==> c2.legs@[j] == leg_after_resolution(
                #[trigger] c.legs@[j],
                market_id,
                outcome,
            ))
        &&& c2.status == combo_status_of(c2.legs@)
    } else {
        c2 == c
    }
}

/// Law: a lost leg is terminal. Once any leg has lost, the combo's status is
/// `Lost`, and applying any further market resolution to the legs leaves it
/// `Lost`.
pub proof fn lemma_lost_is_sticky(
    legs: Seq<ComboLeg>,
    legs2: Seq<ComboLeg>,
    market_id: u64,
    outcome: bool,
)
    requires
        any_lost(legs),
        legs2.len() == legs.len(),
        forall|j: int|
            0 <= j < legs.len() ==> legs2[j] == leg_after_resolution(
                #[trigger] legs[j],
                market_id,
                outcome,
            ),
    ensures
        combo_status_of(legs) == ComboStatus::Lost,
        any_lost(legs2),
        combo_status_of(legs2) == ComboStatus::Lost,
{
    let j = choose|j: int| 0 <= j < legs.len() && leg_lost(#[trigger] legs[j]);
    assert(legs2[j] == legs[j]);
    assert(leg_lost(legs2[j]));
}

/// An early verdict stands: once some prefix of the legs fails validation,
/// the verdict over any longer prefix is the same.
pub proof fn lemma_combo_legs_check_extend(
    markets: Seq<Market>,
    legs: Seq<LegRequest>,
    k: int,
    n: int,
)
    requires
        0 <= k <= n,
        combo_legs_check(markets, legs, k) is Some,
    ensures
        combo_legs_check(markets, legs, n) == combo_legs_check(markets, legs, k),
    decreases n - k,
{
    if k < n {
        lemma_combo_legs_check_extend(markets, legs, k, n - 1);
    }
}

/// The leg validation only ever reports a missing, settled or unfunded
/// market.
pub proof fn lemma_combo_legs_check_errors(markets: Seq<Market>, legs: Seq<LegRequest>, n: int)
    ensures
        combo_legs_check(markets, legs, n) matches Some(e) ==> (e == MarketError::NotFound(
            Entity::Market,
        ) || e == MarketError::AlreadyResolved || e == MarketError::ZeroLiquidity),
    decreases n,
{
    if n > 0 {
        lemma_combo_legs_check_errors(markets, legs, n - 1);
    }
}

/// A clear verdict means every checked leg references a stored, open market
/// holding some liquidity.
pub proof fn lemma_combo_legs_check_none(markets: Seq<Market>, legs: Seq<LegRequest>, n: int)
    requires
        combo_legs_check(markets, legs, n) is None,
    ensures
        forall|k: int|
            0 <= k < n ==> {
                let l = #[trigger] legs[k];
                &&& l.market_id < markets.len()
                &&& !markets[l.market_id as int].resolved
                &&& !(markets[l.market_id as int].yes_pool == 0 && markets[l.market_id as int].no_pool == 0)
            },
    decreases n,
{
    if n > 0 {
        if combo_legs_check(markets, legs, n - 1) is Some {
            lemma_combo_legs_check_extend(markets, legs, n - 1, n);
        }
        lemma_combo_legs_check_none(markets, legs, n - 1);
    }
}

/// Exact odds over a prefix of the legs stay exact over any shorter prefix.
pub proof fn lemma_combo_odds_exact_prefix(
    markets: Seq<Market>,
    legs: Seq<LegRequest>,
    k: int,
    n: int,
)
    requires
        0 <= k <= n,
        combo_odds_exact(markets, legs, n),
    ensures
        combo_odds_exact(markets, legs, k),
    decreases n - k,
{
    if k < n {
        lemma_combo_odds_exact_prefix(markets, legs, k, n - 1);
    }
}

/// Whether any leg has resolved yet.
pub fn any_leg_resolved(legs: &Vec<ComboLeg>) -> (b: bool)
    ensures
        b == any_resolved(legs@),
{
    let mut j: usize = 0;
    while j < legs.len()
        invariant
            j <= legs.len(),
            forall|k: int| 0 <= k < j ==> !(#[trigger] legs@[k]).resolved,
        decreases legs.len() - j,
    {
        if legs[j].resolved {
            return true;
        }
        j += 1;
    }
    false
}

/// Applies a market's outcome to every matching, still-open leg.
pub fn resolve_legs(legs: &Vec<ComboLeg>, market_id: u64, outcome: bool) -> (r: Vec<ComboLeg>)
    ensures
        r@.len() == legs@.len(),
        forall|j: int|
            0 <= j < legs@.len() ==> r@[j] == leg_after_resolution(
                #[trigger] legs@[j],
                market_id,
                outcome,
            ),
{
    let mut out: Vec<ComboLeg> = Vec::new();
    let mut j: usize = 0;
    while j < legs.len()
        invariant
            j <= legs.len(),
            out@.len() == j,
            forall|k: int|
                0 <= k < j ==> out@[k] == leg_after_resolution(
                    #[trigger] legs@[k],
                    market_id,
                    outcome,
                ),
        decreases legs.len() - j,
    {
        let leg = legs[j];
        if leg.market_id == market_id && !leg.resolved {
            out.push(ComboLeg { resolved: true, won: Some(leg.prediction == outcome), ..leg });
        } else {
            out.push(leg);
        }
        j += 1;
    }
    out
}

/// Recomputes the status a combo's legs dictate.
pub fn status_of_legs(legs: &Vec<ComboLeg>) -> (r: ComboStatus)
    ensures
        r == combo_status_of(legs@),
{
    let mut lost_seen = false;
    let mut open_seen = false;
    let mut resolved_seen = false;
    let mut j: usize = 0;
    while j < legs.len()
        invariant
            j <= legs.len(),
            lost_seen <==> exists|k: int| 0 <= k < j && leg_lost(#[trigger] legs@[k]),
            resolved_seen <==> exists|k: int| 0 <= k < j && (#[trigger] legs@[k]).resolved,
            open_seen <==> exists|k: int| 0 <= k < j && !(#[trigger] legs@[k]).resolved,
        decreases legs.len() - j,
    {
        let leg = legs[j];
        if leg.resolved {
            resolved_seen = true;
            if let Some(false) = leg.won {
                lost_seen = true;
            }
        } else {
            open_seen = true;
        }
        j += 1;
    }
    if lost_seen {
        ComboStatus::Lost
    } else if !open_seen {
        proof {
            assert(all_resolved(legs@));
        }
        ComboStatus::Won
    } else if resolved_seen {
        ComboStatus::PartiallyResolved
    } else {
        ComboStatus::Active
    }
}

/// Prices one leg: the implied probability of the predicted side, scaled.
pub fn leg_odds(yes_pool: u128, no_pool: u128, prediction: bool) -> (r: Result<u128, MarketError>)
    ensures
        yes_pool + no_pool > u128::MAX ==> r == Err::<u128, MarketError>(
            MarketError::ArithmeticOverflow,
        ),
        0 < yes_pool + no_pool <= u128::MAX && mul_div_exact(
            opposing_pool(yes_pool, no_pool, prediction),
            SCALE,
            (yes_pool + no_pool) as u128,
        ) ==> r == Ok::<u128, MarketError>(
            leg_odds_quot(yes_pool, no_pool, prediction) as u128,
        ),
        yes_pool + no_pool <= u128::MAX ==> (r is Ok <==> mul_div_fits(
            opposing_pool(yes_pool, no_pool, prediction),
            SCALE,
            (yes_pool + no_pool) as u128,
        )),
        r matches Ok(v) ==> yes_pool + no_pool <= u128::MAX && v == mul_div_ladder(
            opposing_pool(yes_pool, no_pool, prediction),
            SCALE,
            (yes_pool + no_pool) as u128,
        ),
        yes_pool == 0 && no_pool == 0 ==> r == Err::<u128, MarketError>(
            MarketError::DivisionByZero,
        ),
        r is Err ==> r == Err::<u128, MarketError>(MarketError::DivisionByZero) || r == Err::<
            u128,
            MarketError,
        >(MarketError::ArithmeticOverflow),
{
    let total = match yes_pool.checked_add(no_pool) {
        Some(t) => t,
        None => {
            return Err(MarketError::ArithmeticOverflow);
        },
    };
    let opposing = if prediction {
        no_pool
    } else {
        yes_pool
    };
    safe_mul_div(opposing, SCALE, total)
}

} // verus!
