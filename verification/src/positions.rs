//! The position ledger's mathematical model: per-market share sums, lookup of
//! the position held by an (owner, market) pair, and the lemmas describing how
//! both move when the ledger is extended or updated.

use vstd::prelude::*;
use crate::market::Position;

verus! {

/// How many YES shares a single position contributes to a market's total.
pub open spec fn yes_contrib(p: Position, market_id: u64) -> int {
    if p.market_id == market_id {
        p.yes_shares as int
    } else {
        0
    }
}

/// How many NO shares a single position contributes to a market's total.
pub open spec fn no_contrib(p: Position, market_id: u64) -> int {
    if p.market_id == market_id {
        p.no_shares as int
    } else {
        0
    }
}

/// The YES shares of one market summed over every position in the ledger.
pub open spec fn sum_yes_shares(ps: Seq<Position>, market_id: u64) -> int
    decreases ps.len(),
{
    if ps.len() == 0 {
        0
    } else {
        sum_yes_shares(ps.drop_last(), market_id) + yes_contrib(ps.last(), market_id)
    }
}

/// The NO shares of one market summed over every position in the ledger.
pub open spec fn sum_no_shares(ps: Seq<Position>, market_id: u64) -> int
    decreases ps.len(),
{
    if ps.len() == 0 {
        0
    } else {
        sum_no_shares(ps.drop_last(), market_id) + no_contrib(ps.last(), market_id)
    }
}

/// The first position held by `owner` in `market_id`, if any. Under the
/// ledger's key-uniqueness invariant there is at most one.
pub open spec fn position_of(ps: Seq<Position>, owner: u64, market_id: u64) -> Option<Position>
    decreases ps.len(),
{
    if ps.len() == 0 {
        None
    } else if ps[0].owner == owner && ps[0].market_id == market_id {
        Some(ps[0])
    } else {
        position_of(ps.subrange(1, ps.len() as int), owner, market_id)
    }
}

pub proof fn lemma_sum_shares_nonneg(ps: Seq<Position>, market_id: u64)
    ensures
        sum_yes_shares(ps, market_id) >= 0,
        sum_no_shares(ps, market_id) >= 0,
    decreases ps.len(),
{
    if ps.len() > 0 {
        lemma_sum_shares_nonneg(ps.drop_last(), market_id);
    }
}

/// A single position's contribution never exceeds the ledger-wide sum.
pub proof fn lemma_contrib_le_sum(ps: Seq<Position>, i: int, market_id: u64)
    requires
        0 <= i < ps.len(),
    ensures
        yes_contrib(ps[i], market_id) <= sum_yes_shares(ps, market_id),
        no_contrib(ps[i], market_id) <= sum_no_shares(ps, market_id),
    decreases ps.len(),
{
    lemma_sum_shares_nonneg(ps.drop_last(), market_id);
    if i < ps.len() - 1 {
        lemma_contrib_le_sum(ps.drop_last(), i, market_id);
    }
}

/// Appending a position adds exactly its contribution to each sum.
pub proof fn lemma_sum_shares_push(ps: Seq<Position>, p: Position, market_id: u64)
    ensures
        sum_yes_shares(ps.push(p), market_id) == sum_yes_shares(ps, market_id) + yes_contrib(
            p,
            market_id,
        ),
        sum_no_shares(ps.push(p), market_id) == sum_no_shares(ps, market_id) + no_contrib(
            p,
            market_id,
        ),
{
    assert(ps.push(p).drop_last() =~= ps);
}

/// Overwriting one position moves each sum by the difference of the old and
/// new contributions.
pub proof fn lemma_sum_shares_update(ps: Seq<Position>, i: int, p: Position, market_id: u64)
    requires
        0 <= i < ps.len(),
    ensures
        sum_yes_shares(ps.update(i, p), market_id) == sum_yes_shares(ps, market_id) - yes_contrib(
            ps[i],
            market_id,
        ) + yes_contrib(p, market_id),
        sum_no_shares(ps.update(i, p), market_id) == sum_no_shares(ps, market_id) - no_contrib(
            ps[i],
            market_id,
        ) + no_contrib(p, market_id),
    decreases ps.len(),
{
    let ps2 = ps.update(i, p);
    if i == ps.len() - 1 {
        assert(ps2.drop_last() =~= ps.drop_last());
        assert(ps2.last() == p);
    } else {
        assert(ps2.drop_last() =~= ps.drop_last().update(i, p));
        assert(ps2.last() == ps.last());
        lemma_sum_shares_update(ps.drop_last(), i, p, market_id);
    }
}

/// A market no position references collects nothing.
pub proof fn lemma_sum_shares_no_match(ps: Seq<Position>, market_id: u64)
    requires
        forall|k: int| 0 <= k < ps.len() ==> (#[trigger] ps[k]).market_id != market_id,
    ensures
        sum_yes_shares(ps, market_id) == 0,
        sum_no_shares(ps, market_id) == 0,
    decreases ps.len(),
{
    if ps.len() > 0 {
        lemma_sum_shares_no_match(ps.drop_last(), market_id);
    }
}

/// A first match at index `i` is what `position_of` returns.
pub proof fn lemma_position_of_index(ps: Seq<Position>, i: int, owner: u64, market_id: u64)
    requires
        0 <= i < ps.len(),
        ps[i].owner == owner && ps[i].market_id == market_id,
        forall|k: int|
            0 <= k < i ==> !((#[trigger] ps[k]).owner == owner && ps[k].market_id == market_id),
    ensures
        position_of(ps, owner, market_id) == Some(ps[i]),
    decreases i,
{
    if i > 0 {
        let tail = ps.subrange(1, ps.len() as int);
        assert(tail[i - 1] == ps[i]);
        assert forall|k: int| 0 <= k < i - 1 implies !((#[trigger] tail[k]).owner == owner
            && tail[k].market_id == market_id) by {
            assert(tail[k] == ps[k + 1]);
        }
        lemma_position_of_index(tail, i - 1, owner, market_id);
    }
}

/// `position_of` finds nothing exactly when no position carries the key.
pub proof fn lemma_position_of_none(ps: Seq<Position>, owner: u64, market_id: u64)
    ensures
        position_of(ps, owner, market_id) is None <==> (forall|k: int|
            0 <= k < ps.len() ==> !((#[trigger] ps[k]).owner == owner && ps[k].market_id
                == market_id)),
    decreases ps.len(),
{
    if ps.len() > 0 {
        let tail = ps.subrange(1, ps.len() as int);
        lemma_position_of_none(tail, owner, market_id);
        if !(ps[0].owner == owner && ps[0].market_id == market_id) {
            if forall|k: int|
                0 <= k < ps.len() ==> !((#[trigger] ps[k]).owner == owner && ps[k].market_id
                    == market_id) {
                assert forall|k: int| 0 <= k < tail.len() implies !((#[trigger] tail[k]).owner
                    == owner && tail[k].market_id == market_id) by {
                    assert(tail[k] == ps[k + 1]);
                }
            }
            if position_of(ps, owner, market_id) is None {
                assert forall|k: int| 0 <= k < ps.len() implies !((#[trigger] ps[k]).owner == owner
                    && ps[k].market_id == market_id) by {
                    if k > 0 {
                        assert(ps[k] == tail[k - 1]);
                    }
                }
            }
        }
    }
}

/// Updating a position without changing its key leaves every other key's
/// lookup unchanged.
pub proof fn lemma_position_of_update_other(
    ps: Seq<Position>,
    i: int,
    p: Position,
    owner: u64,
    market_id: u64,
)
    requires
        0 <= i < ps.len(),
        p.owner == ps[i].owner && p.market_id == ps[i].market_id,
        !(p.owner == owner && p.market_id == market_id),
    ensures
        position_of(ps.update(i, p), owner, market_id) == position_of(ps, owner, market_id),
    decreases ps.len(),
{
    let ps2 = ps.update(i, p);
    if i == 0 {
        assert(ps2.subrange(1, ps2.len() as int) =~= ps.subrange(1, ps.len() as int));
    } else {
        if !(ps[0].owner == owner && ps[0].market_id == market_id) {
            assert(ps2.subrange(1, ps2.len() as int) =~= ps.subrange(1, ps.len() as int).update(
                i - 1,
                p,
            ));
            lemma_position_of_update_other(
                ps.subrange(1, ps.len() as int),
                i - 1,
                p,
                owner,
                market_id,
            );
        }
    }
}

/// Appending a position with a different key leaves a key's lookup unchanged.
pub proof fn lemma_position_of_push_other(
    ps: Seq<Position>,
    p: Position,
    owner: u64,
    market_id: u64,
)
    requires
        !(p.owner == owner && p.market_id == market_id),
    ensures
        position_of(ps.push(p), owner, market_id) == position_of(ps, owner, market_id),
    decreases ps.len(),
{
    let ps2 = ps.push(p);
    if ps.len() == 0 {
        assert(ps2.subrange(1, ps2.len() as int) =~= Seq::<Position>::empty());
    } else {
        assert(ps2[0] == ps[0]);
        if !(ps[0].owner == owner && ps[0].market_id == market_id) {
            assert(ps2.subrange(1, ps2.len() as int) =~= ps.subrange(1, ps.len() as int).push(p));
            lemma_position_of_push_other(ps.subrange(1, ps.len() as int), p, owner, market_id);
        }
    }
}

} // verus!
