//! What holds of the shares of markets and of their holders.

use vstd::prelude::*;

use crate::state::markets::database::{
    account_of, held, share_problem, shares_accounted_for, MarketsView,
};
use crate::state::markets::types::{position, Position, ShareAccountView};
use crate::state::markets::MarketId;
use crate::state::update::{
    account_changed, change_key, first_share_problem, market_updated, markets_after,
    MarketStateUpdate, ShareChangeKey, StateUpdateView,
};
use crate::state::Error;
use crate::sums::{has_rows, lemma_sum_set, sum_of};
use crate::table::rows_of;
use crate::types::Address;

verus! {

proof fn lemma_held(rows: Seq<(Address, ShareAccountView)>, p: Position)
    ensures
        held(rows, p) == sum_of(rows, |row: (Address, ShareAccountView)| row.1.shares(p) as int),
    decreases rows.len(),
{
    if rows.len() > 0 {
        lemma_held(rows.drop_last(), p);
    }
}

/// Changing an account changes what is held in the position by as much, and in
/// no other.
pub proof fn changes_move_holdings(
    v: MarketsView,
    key: ShareChangeKey,
    delta: i64,
    height: u32,
    after: MarketsView,
    p: Position,
)
    requires
        has_rows(v.accounts),
        account_changed(v, key, delta, height) == Ok::<MarketsView, Error>(after),
    ensures
        has_rows(after.accounts),
        after.markets == v.markets,
        held(rows_of(after.accounts), p) == held(rows_of(v.accounts), p) + if p == position(
            key.market_id,
            key.outcome_index,
        ) {
            delta as int
        } else {
            0
        },
{
    if delta != 0 {
        let g = |row: (Address, ShareAccountView)| row.1.shares(p) as int;
        let account = account_of(v.accounts, key.address);
        let next = after.accounts[key.address];
        assert(after.accounts =~= v.accounts.insert(key.address, next));
        lemma_sum_set(v.accounts, key.address, next, g);
        lemma_held(rows_of(v.accounts), p);
        lemma_held(rows_of(after.accounts), p);
        assert(next.shares(p) == account.shares(p) + if p == position(
            key.market_id,
            key.outcome_index,
        ) {
            delta as int
        } else {
            0
        });
    }
}

/// A trade keeps the shares of all markets accounted for: its market and the
/// account of its trader change by the same number of shares.
pub proof fn trades_keep_shares_accounted_for(
    v: MarketsView,
    u: MarketStateUpdate,
    trader: Address,
    outcome: usize,
    delta: i64,
    height: u32,
    traded: MarketsView,
    after: MarketsView,
    m: MarketId,
)
    requires
        has_rows(v.accounts),
        v.markets.dom().contains(m),
        shares_accounted_for(v.accounts, m, v.markets[m].shares),
        u.share_delta == Some((outcome, delta)),
        outcome <= u32::MAX,
        market_updated(v, u, height) == Ok::<MarketsView, Error>(traded),
        account_changed(traded, change_key(trader, u.market_id, outcome as u32), delta, height)
            == Ok::<MarketsView, Error>(after),
    ensures
        after.markets.dom().contains(m),
        shares_accounted_for(after.accounts, m, after.markets[m].shares),
{
    let key = change_key(trader, u.market_id, outcome as u32);
    let before = v.markets[m].shares;
    let shares = after.markets[m].shares;
    assert forall|o: int| 0 <= o < shares.len() implies #[trigger] shares[o] == held(
        rows_of(after.accounts),
        position(m, o as u32),
    ) by {
        let p = position(m, o as u32);
        changes_move_holdings(traded, key, delta, height, after, p);
        assert(before[o] == held(rows_of(v.accounts), p));
        if u.market_id == m {
            assert(shares == before.update(outcome as int, (before[outcome as int] + delta) as i64));
            assert(p == position(u.market_id, outcome as u32) <==> o == outcome);
        }
    }
    changes_move_holdings(traded, key, delta, height, after, position(m, 0));
}

/// A block that is written down leaves the shares of each market that was
/// traded accounted for.
pub proof fn written_blocks_account_for_shares(
    markets: MarketsView,
    update: StateUpdateView,
    height: u32,
    after: MarketsView,
    i: int,
)
    requires
        markets_after(markets, update, height) == Ok::<MarketsView, Error>(after),
        0 <= i < rows_of(update.changes).len(),
    ensures
        share_problem(after, rows_of(update.changes)[i].0.market_id) is None,
{
    lemma_no_share_problem(after, rows_of(update.changes), i);
}

proof fn lemma_no_share_problem(v: MarketsView, rows: Seq<(ShareChangeKey, i64)>, i: int)
    requires
        first_share_problem(v, rows) is None,
        0 <= i < rows.len(),
    ensures
        share_problem(v, rows[i].0.market_id) is None,
    decreases rows.len(),
{
    if i < rows.len() - 1 {
        lemma_no_share_problem(v, rows.drop_last(), i);
    }
}

} // verus!
