//! The error taxonomy of the settlement core. Every fallible operation
//! surfaces exactly one of these conditions; operations apply either all of
//! their state mutations or none.

use vstd::prelude::*;

verus! {

/// The kinds of stored entity an operation can fail to find.
#[derive(Clone, Copy, Debug, PartialEq, Eq, Structural)]
pub enum Entity {
    Market,
    Position,
    Combo,
}

/// Why an operation was refused. No failure is silent: the caller always
/// receives the variant naming the precondition that did not hold.
#[derive(Clone, Copy, Debug, PartialEq, Eq, Structural)]
pub enum MarketError {
    /// The environment supplied no authenticated caller identity.
    Unauthenticated,
    /// The referenced entity does not exist.
    NotFound(Entity),
    /// The market is already resolved (terminal state).
    AlreadyResolved,
    /// The current timestamp is past the market's end time.
    MarketEnded,
    /// The caller is not the market's creator (or the combo's owner).
    NotAuthorized,
    /// A trade would drain a pool to zero or below, or a seller holds fewer
    /// shares than the trade disposes of.
    InsufficientLiquidity,
    /// The computed cost exceeds the caller-supplied slippage bound.
    CostExceedsLimit,
    /// The computed proceeds fall below the caller-supplied bound.
    ProceedsBelowMinimum,
    /// The position was already paid out once.
    AlreadyClaimed,
    /// The position holds no shares of the winning side.
    NoWinningShares,
    /// The market has no outcome recorded yet.
    OutcomeUnset,
    /// A combo must have between 2 and 10 legs.
    InvalidLegCount,
    /// A combo leg references a market whose pools are both empty.
    ZeroLiquidity,
    /// A combo with a resolved leg can no longer be cancelled.
    PartialResolutionPreventsCancel,
    /// The combo is not in a cancellable state.
    NotCancellable,
    /// A division by zero was requested.
    DivisionByZero,
    /// An intermediate value does not fit the fixed-width integer domain.
    ArithmeticOverflow,
}

} // verus!
